//! What a reporter of completed turns can count on, over whole exchanges: a
//! report, the writes it asks for, and its answer.
use vstd::prelude::*;
use vstd::string::*;

use crate::clock::stamp;
use crate::daemon::interaction_api::{
    admit_turn, append_turn, appended, appended_turn, compacted, compacted_turn, counted,
    counted_lanes, expired_turn, latest_allowed, new_entry, on_record, report_fault, report_turn,
    turn_count, InteractionProgressView, ReportView,
};
use crate::daemon::lane_api::{activate_turn, create_turn, touch_turn};
use crate::daemon::merge::{law_merge_keeps_concurrent_changes, merged, merged_lanes};
use crate::daemon::message_api::{fork_turn, message_turn};
use crate::daemon::meta_api::{meta_turn, model_turn, ForkView, MetaStepView};
use crate::daemon::responses::{bare_ok, lane_ok, plain, spoken_ok, ResponseView};
use crate::daemon::state::{
    after_save, changed_lanes, save_answer, selection_changed, DaemonView, LaneProgressView,
};
use crate::interactions::{
    any_old, count_of, entry_fault, entry_position, first_entry_fault, lemma_entry_position, pruned,
    recent_entries, registry_count, window_start, EntryView, MAX_INTERACTION_DEDUPE_ENTRIES,
    MAX_INTERACTION_JOURNAL_ENTRIES,
};
use crate::json::{json_bool, json_string, member, member_texts};
use crate::lanes::{
    create_refusal, created, created_lane, distinct_ids, has_lane, law_valid_is_faultless,
    lemma_position, position, reachable, registry_fault, switched, touched, valid_registry,
    well_formed_lane, LaneView, RegistryView,
};
use crate::lookup::meant_lane;
use crate::meta::{
    after_action, created_and_switched, fork_lane_name, lemma_created_is_reachable, meaning,
    spoken, ActionView,
};
use crate::openai::text_or;
use crate::relay::state::RelayView;
use crate::steering::{after_calls, call_arguments, named_tool, CallView, SteeringTool};
use crate::text::joined;
use crate::transcript::TurnView;
use crate::value::JsonView;

verus! {

/// The daemon and its answer once the lanes are saved, where a report asks for
/// that.
pub open spec fn after_saving(p: (DaemonView, InteractionProgressView)) -> (
    DaemonView,
    Option<ResponseView>,
) {
    match p.1 {
        InteractionProgressView::Done(r) => (p.0, Some(r)),
        InteractionProgressView::Save(s) => (
            after_save(p.0, s, Ok(())),
            Some(save_answer(s, Ok(()))),
        ),
        _ => (p.0, None),
    }
}

/// The daemon and its answer once the record is in the journal as well.
pub open spec fn after_appending(p: (DaemonView, InteractionProgressView)) -> (
    DaemonView,
    Option<ResponseView>,
) {
    match p.1 {
        InteractionProgressView::Append(q, e) => after_saving(appended_turn(p.0, q, e, Ok(()))),
        _ => after_saving(p),
    }
}

/// The daemon and its answer once a full journal is emptied as well.
pub open spec fn after_emptying(p: (DaemonView, InteractionProgressView)) -> (
    DaemonView,
    Option<ResponseView>,
) {
    match p.1 {
        InteractionProgressView::CompactJournal(q) => after_appending(
            compacted_turn(p.0, q, Ok(())),
        ),
        _ => after_appending(p),
    }
}

/// The daemon and its answer to a report, where every write that the report
/// asks for succeeds.
pub open spec fn exchange(d: DaemonView, q: ReportView) -> (DaemonView, Option<ResponseView>) {
    let p = report_turn(d, q);
    match p.1 {
        InteractionProgressView::CompactExpired(q, l) => after_emptying(
            expired_turn(p.0, q, l, Ok(())),
        ),
        _ => after_emptying(p),
    }
}

/// Whether a turn is on record: nothing stands in the way of a report, and the
/// ledger holds the turn, counted in its lane.
pub open spec fn recorded(d: DaemonView, q: ReportView) -> bool {
    let p = entry_position(d.ledger.entries, q.interaction_id, 0);
    &&& !d.interaction_uncertain
    &&& !d.lane_uncertain
    &&& registry_fault(d.reg) is None
    &&& first_entry_fault(d.ledger.entries, 0) is None
    &&& has_lane(d.reg.lanes, q.id)
    &&& p < d.ledger.entries.len()
    &&& d.ledger.entries[p].lane_id == q.id
    &&& d.ledger.entries[p].interaction_created_at_ms == q.interaction_created_at_ms
    &&& d.ledger.entries[p].lane_interactions <= registry_count(d.reg, q.id)
}

/// Whether a report's own time is within the window when it is handled.
pub open spec fn timely(q: ReportView) -> bool {
    window_start(q.now_ms) <= q.interaction_created_at_ms <= latest_allowed(q.now_ms)
}

/// The daemon when a report is admitted: records out of the window are gone
/// from it where they had to be.
pub open spec fn admitting(d: DaemonView, q: ReportView) -> DaemonView {
    if !on_record(d.ledger, q) && (any_old(d.ledger.entries, window_start(q.now_ms))
        || d.ledger.needs_durable_compaction) {
        DaemonView { ledger: compacted(pruned(d.ledger, window_start(q.now_ms))), ..d }
    } else {
        d
    }
}

// ---- lemmas -----------------------------------------------------------------------

proof fn lemma_entries_faultless(v: Seq<EntryView>, i: int)
    requires
        0 <= i <= v.len(),
    ensures
        first_entry_fault(v, i) is None <==> (forall|k: int|
            i <= k < v.len() ==> entry_fault(#[trigger] v[k]) is None),
    decreases v.len() - i,
{
    if i < v.len() {
        lemma_entries_faultless(v, i + 1);
    }
}

/// The two answers of success are told apart.
proof fn lemma_answers_differ(id: Seq<char>)
    ensures
        counted(id, true) != counted(id, false),
{
    reveal_strlit("true");
    reveal_strlit("false");
    let a = member_texts(
        seq![
            ("duplicate"@, json_bool(true)),
            ("id"@, json_string(id)),
            ("ok"@, json_bool(true)),
        ],
    );
    let b = member_texts(
        seq![
            ("duplicate"@, json_bool(false)),
            ("id"@, json_string(id)),
            ("ok"@, json_bool(true)),
        ],
    );
    assert(a.drop_last().drop_last().len() == 1);
    assert(b.drop_last().drop_last().len() == 1);
    reveal_with_fuel(joined, 4);
    assert(a[0] == member("duplicate"@, json_bool(true)));
    assert(b[0] == member("duplicate"@, json_bool(false)));
    assert(a[1] == b[1] && a[2] == b[2]);
    assert(a.drop_last().last() == a[1]);
    assert(b.drop_last().last() == b[1]);
    assert(a.drop_last().drop_last()[0] == a[0]);
    assert(b.drop_last().drop_last()[0] == b[0]);
    assert(b[0].len() == a[0].len() + 1);
    assert(joined(b, seq![',']).len() == joined(a, seq![',']).len() + 1);
    assert(counted(id, false).text.len() == counted(id, true).text.len() + 1);
}

/// Counting a turn leaves every lane in its place and the other counts alone.
proof fn lemma_counted_lanes(reg: RegistryView, id: Seq<char>, count: u64, now_ms: nat)
    requires
        has_lane(reg.lanes, id),
    ensures
        ({
            let w = counted_lanes(reg, id, count, stamp(now_ms));
            &&& !selection_changed(reg, w)
            &&& forall|x: Seq<char>| #[trigger] has_lane(w.lanes, x) == has_lane(reg.lanes, x)
            &&& registry_count(w, id) == count
            &&& forall|x: Seq<char>|
                x != id ==> #[trigger] registry_count(w, x) == registry_count(reg, x)
        }),
{
    lemma_position(reg.lanes, id);
    let p = position(reg.lanes, id);
    let raised = reg.lanes.update(p, LaneView { interactions: Some(count), ..reg.lanes[p] });
    lemma_position(raised, id);
    assert(raised[p].id == id);
    assert(position(raised, id) == p) by {
        let r = position(raised, id);
        if r < p {
            assert(raised[r] == reg.lanes[r]);
        }
    }
    let w = counted_lanes(reg, id, count, stamp(now_ms));
    assert forall|i: int| 0 <= i < w.lanes.len() implies (#[trigger] w.lanes[i]).id
        == reg.lanes[i].id by {}
    assert forall|x: Seq<char>| #[trigger] position(w.lanes, x) == position(reg.lanes, x) by {
        lemma_position(w.lanes, x);
        lemma_position(reg.lanes, x);
        let a = position(w.lanes, x);
        let b = position(reg.lanes, x);
        if a < b {
            assert(w.lanes[a].id == reg.lanes[a].id);
        }
        if b < a {
            assert(w.lanes[b].id == reg.lanes[b].id);
        }
    }
    assert forall|x: Seq<char>| #[trigger] has_lane(w.lanes, x) == has_lane(reg.lanes, x) by {
        lemma_position(w.lanes, x);
        lemma_position(reg.lanes, x);
    }
    assert forall|x: Seq<char>| x != id implies #[trigger] registry_count(w, x) == registry_count(
        reg,
        x,
    ) by {
        lemma_position(reg.lanes, x);
        assert(position(w.lanes, x) == position(reg.lanes, x));
    }
    assert(position(w.lanes, id) == p);
}

/// What the records are without those out of the window: faultless where they
/// were, and a turn within the window keeps its record.
proof fn lemma_pruned(v: Seq<EntryView>, oldest: u64, id: Seq<char>)
    requires
        first_entry_fault(v, 0) is None,
    ensures
        ({
            let w = v.filter(recent_entries(oldest));
            let p = entry_position(v, id, 0);
            let r = entry_position(w, id, 0);
            &&& first_entry_fault(w, 0) is None
            &&& (p < v.len() && v[p].interaction_created_at_ms >= oldest ==> r < w.len() && w[r]
                == v[p])
            &&& (p == v.len() ==> r == w.len())
        }),
    decreases v.len(),
{
    let f = recent_entries(oldest);
    let w = v.filter(f);
    let p = entry_position(v, id, 0);
    reveal(Seq::filter);
    lemma_entries_faultless(v, 0);
    lemma_entry_position(v, id, 0);
    lemma_entry_position(w, id, 0);
    lemma_entries_faultless(w, 0);
    if v.len() > 0 {
        let u = v.drop_last();
        let x = u.filter(f);
        lemma_entries_faultless(u, 0);
        assert forall|k: int| 0 <= k < u.len() implies entry_fault(#[trigger] u[k]) is None by {
            assert(u[k] == v[k]);
        }
        lemma_pruned(u, oldest, id);
        lemma_entries_faultless(x, 0);
        lemma_entry_position(u, id, 0);
        lemma_entry_position(x, id, 0);
        let pu = entry_position(u, id, 0);
        let rx = entry_position(x, id, 0);
        assert(pu == p || (pu == u.len() && p >= u.len())) by {
            if p < u.len() {
                assert(u[p] == v[p]);
                if pu < p {
                    assert(u[pu] == v[pu]);
                }
            } else if pu < u.len() {
                assert(u[pu] == v[pu]);
            }
        }
        let r = entry_position(w, id, 0);
        if f(v.last()) {
            assert(w == x.push(v.last()));
            assert forall|k: int| 0 <= k < w.len() implies entry_fault(#[trigger] w[k]) is None by {
                if k < x.len() {
                    assert(w[k] == x[k]);
                } else {
                    assert(w[k] == v[v.len() - 1]);
                }
            }
            if rx < x.len() {
                assert(w[rx] == x[rx]);
                if r < rx {
                    assert(w[r] == x[r]);
                }
                assert(r == rx);
            } else if r < x.len() {
                assert(w[r] == x[r]);
            }
            if pu == u.len() {
                assert(rx == x.len());
                assert(w[x.len() as int] == v.last());
            }
        } else {
            assert(w == x);
        }
    }
}

/// The state of a turn whose record was just added: on record where the lanes
/// may be kept as they are then, and answered as counted nowhere else.
proof fn lemma_appended(d: DaemonView, q: ReportView, count: u64)
    requires
        !d.interaction_uncertain,
        !d.lane_uncertain,
        registry_fault(d.reg) is None,
        first_entry_fault(d.ledger.entries, 0) is None,
        has_lane(d.reg.lanes, q.id),
        entry_fault(new_entry(q, count)) is None,
        entry_position(d.ledger.entries, q.interaction_id, 0) == d.ledger.entries.len(),
    ensures
        ({
            let x = after_saving(appended_turn(d, q, new_entry(q, count), Ok(())));
            let reg = counted_lanes(d.reg, q.id, count, stamp(q.now_ms as nat));
            &&& first_entry_fault(d.ledger.entries.push(new_entry(q, count)), 0) is None
            &&& x.0.ledger == appended(d.ledger, new_entry(q, count))
            &&& x.0.reg == (if registry_fault(reg) is None {
                reg
            } else {
                d.reg
            })
            &&& x.0 == (DaemonView { ledger: x.0.ledger, reg: x.0.reg, ..d })
            &&& (x.1 == Some(counted(q.id, false)) ==> recorded(x.0, q))
            &&& forall|id: Seq<char>| #[trigger]
                has_lane(x.0.reg.lanes, id) == has_lane(d.reg.lanes, id)
        }),
{
    let e = new_entry(q, count);
    let v = d.ledger.entries;
    let w = v.push(e);
    lemma_counted_lanes(d.reg, q.id, count, q.now_ms as nat);
    lemma_entries_faultless(v, 0);
    lemma_entries_faultless(w, 0);
    assert forall|k: int| 0 <= k < w.len() implies entry_fault(#[trigger] w[k]) is None by {
        if k < v.len() {
            assert(w[k] == v[k]);
        }
    }
    lemma_entry_position(v, q.interaction_id, 0);
    lemma_entry_position(w, q.interaction_id, 0);
    assert(w[v.len() as int] == e);
    let p = entry_position(w, q.interaction_id, 0);
    if p < v.len() {
        assert(w[p] == v[p]);
    }
}

// ---- laws -------------------------------------------------------------------------

/// A turn that was answered as newly counted, with every write done, is on
/// record from there on, and no lane has come or gone.
pub proof fn law_counted_turn_is_on_record(d: DaemonView, q: ReportView)
    requires
        exchange(d, q).1 == Some(counted(q.id, false)),
    ensures
        recorded(exchange(d, q).0, q),
        forall|id: Seq<char>| #[trigger]
            has_lane(exchange(d, q).0.reg.lanes, id) == has_lane(d.reg.lanes, id),
{
    lemma_answers_differ(q.id);
    assert(report_fault(d, q) is None);
    let d0 = admitting(d, q);
    lemma_pruned(d.ledger.entries, window_start(q.now_ms), q.interaction_id);
    assert(exchange(d, q) == after_emptying(admit_turn(d0, q)));
    lemma_entry_position(d0.ledger.entries, q.interaction_id, 0);
    assert(entry_position(d0.ledger.entries, q.interaction_id, 0) == d0.ledger.entries.len());
    assert(turn_count(d0, q.id) is Some);
    let n = turn_count(d0, q.id)->0;
    let d1 = if d0.ledger.journal_entries >= MAX_INTERACTION_JOURNAL_ENTRIES {
        DaemonView { ledger: compacted(d0.ledger), ..d0 }
    } else {
        d0
    };
    assert(turn_count(d1, q.id) == Some(n));
    assert(exchange(d, q) == after_appending(append_turn(d1, q)));
    assert(d1.ledger.entries.len() < MAX_INTERACTION_DEDUPE_ENTRIES);
    lemma_appended(d1, q, n);
}

proof fn lemma_journaled_below(v: Seq<EntryView>, id: Seq<char>, most: u64, n: int)
    requires
        0 <= n <= v.len(),
        forall|k: int|
            0 <= k < v.len() && (#[trigger] v[k]).lane_id == id ==> v[k].lane_interactions <= most,
    ensures
        crate::interactions::journaled_count(v, id, None, n) <= most,
    decreases n,
{
    if n > 0 {
        lemma_journaled_below(v, id, most, n - 1);
        assert(v[n - 1].lane_id == id ==> v[n - 1].lane_interactions <= most);
    }
}

/// Counting a turn changes its lane alone: its count, and when it was last used.
proof fn lemma_counted_lane_alone(reg: RegistryView, id: Seq<char>, count: u64, now: Seq<char>)
    requires
        distinct_ids(reg.lanes),
        has_lane(reg.lanes, id),
    ensures
        ({
            let w = counted_lanes(reg, id, count, now);
            &&& w.active_id == reg.active_id
            &&& w.previous_id == reg.previous_id
            &&& w.lanes.len() == reg.lanes.len()
            &&& forall|i: int|
                0 <= i < reg.lanes.len() ==> #[trigger] w.lanes[i] == (if reg.lanes[i].id == id {
                    LaneView { interactions: Some(count), last_active: now, ..reg.lanes[i] }
                } else {
                    reg.lanes[i]
                })
        }),
{
    lemma_position(reg.lanes, id);
    let p = position(reg.lanes, id);
    let raised = reg.lanes.update(p, LaneView { interactions: Some(count), ..reg.lanes[p] });
    assert(raised[p].id == id);
    assert(has_lane(raised, id));
    lemma_position(raised, id);
    let r = position(raised, id);
    if r < p {
        assert(raised[r] == reg.lanes[r]);
    }
    assert(r == p);
    let w = counted_lanes(reg, id, count, now);
    assert forall|i: int| 0 <= i < reg.lanes.len() implies #[trigger] w.lanes[i] == (
    if reg.lanes[i].id == id {
        LaneView { interactions: Some(count), last_active: now, ..reg.lanes[i] }
    } else {
        reg.lanes[i]
    }) by {
        if i < p {
            assert(reg.lanes[i].id != reg.lanes[p].id);
        }
        if p < i {
            assert(reg.lanes[p].id != reg.lanes[i].id);
        }
    }
}

/// A turn that was answered as newly counted, with every write done, adds one to
/// the count of its lane, marks that lane as used, and changes no other lane and
/// no selection. The record holds the turn and the count that it got. Where a
/// record has a higher count than the lane, the turn comes after that one.
pub proof fn law_counted_turn_adds_one(d: DaemonView, q: ReportView, i: int)
    requires
        exchange(d, q).1 == Some(counted(q.id, false)),
        0 <= i < d.reg.lanes.len(),
    ensures
        ({
            let x = exchange(d, q).0;
            let count = x.ledger.entries.last().lane_interactions;
            let before = match d.reg.lanes[i].interactions {
                Some(n) => n,
                None => 0,
            };
            &&& x.reg.lanes.len() == d.reg.lanes.len()
            &&& d.reg.lanes[i].id != q.id ==> x.reg.lanes[i] == d.reg.lanes[i]
            &&& d.reg.lanes[i].id == q.id ==> {
                &&& x.reg.lanes[i] == (LaneView {
                    interactions: Some(count),
                    last_active: stamp(q.now_ms as nat),
                    ..d.reg.lanes[i]
                })
                &&& count > before
                &&& (forall|k: int|
                    0 <= k < d.ledger.entries.len() && (#[trigger] d.ledger.entries[k]).lane_id
                        == q.id ==> d.ledger.entries[k].lane_interactions <= before) ==> count
                    == before + 1
            }
            &&& x.reg.active_id == d.reg.active_id
            &&& x.reg.previous_id == d.reg.previous_id
            &&& x.revision == d.revision
            &&& x.msg_seq == d.msg_seq
            &&& x.ledger.entries.len() > 0
            &&& x.ledger.entries.last().interaction_id == q.interaction_id
            &&& x.ledger.entries.last().lane_id == q.id
            &&& x.ledger.entries.last().interaction_created_at_ms == q.interaction_created_at_ms
        }),
{
    lemma_answers_differ(q.id);
    assert(report_fault(d, q) is None);
    let d0 = admitting(d, q);
    lemma_pruned(d.ledger.entries, window_start(q.now_ms), q.interaction_id);
    assert(exchange(d, q) == after_emptying(admit_turn(d0, q)));
    lemma_entry_position(d0.ledger.entries, q.interaction_id, 0);
    assert(entry_position(d0.ledger.entries, q.interaction_id, 0) == d0.ledger.entries.len());
    let n = turn_count(d0, q.id)->0;
    let d1 = if d0.ledger.journal_entries >= MAX_INTERACTION_JOURNAL_ENTRIES {
        DaemonView { ledger: compacted(d0.ledger), ..d0 }
    } else {
        d0
    };
    assert(turn_count(d1, q.id) == Some(n));
    assert(exchange(d, q) == after_appending(append_turn(d1, q)));
    lemma_appended(d1, q, n);
    crate::lanes::law_valid_is_faultless(d.reg);
    lemma_counted_lanes(d.reg, q.id, n, q.now_ms as nat);
    lemma_counted_lane_alone(d.reg, q.id, n, stamp(q.now_ms as nat));
    let x = exchange(d, q).0;
    let w = counted_lanes(d.reg, q.id, n, stamp(q.now_ms as nat));
    assert(x.reg == w);
    if d.reg.lanes[i].id == q.id {
        lemma_position(d.reg.lanes, q.id);
        let p = position(d.reg.lanes, q.id);
        assert(has_lane(d.reg.lanes, q.id));
        if p < i {
            assert(d.reg.lanes[p].id != d.reg.lanes[i].id);
        }
        let before = count_of(d.reg.lanes[i]);
        if forall|k: int|
            0 <= k < d.ledger.entries.len() && (#[trigger] d.ledger.entries[k]).lane_id == q.id
                ==> d.ledger.entries[k].lane_interactions <= before {
            let v = d1.ledger.entries;
            assert forall|k: int| 0 <= k < v.len() && (#[trigger] v[k]).lane_id == q.id implies
                v[k].lane_interactions <= before by {
                crate::relay::outcomes::lemma_filter_holds(
                    d.ledger.entries,
                    recent_entries(window_start(q.now_ms)),
                );
                assert(v.contains(v[k]));
                assert(d.ledger.entries.contains(v[k]));
                let j = choose|j: int| 0 <= j < d.ledger.entries.len() && d.ledger.entries[j]
                    == v[k];
                assert(d.ledger.entries[j].lane_id == q.id);
            }
            lemma_journaled_below(v, q.id, before, v.len() as int);
        }
    }
}

/// A report of a turn of a known lane, within the window, that is not on record,
/// is counted while there is room for its record.
pub proof fn law_new_report_is_counted(d: DaemonView, q: ReportView)
    requires
        valid_registry(d.reg),
        !d.interaction_uncertain,
        !d.lane_uncertain,
        first_entry_fault(d.ledger.entries, 0) is None,
        has_lane(d.reg.lanes, q.id),
        crate::proto::valid_opaque_id(q.interaction_id),
        timely(q),
        q.now_ms <= crate::proto::MAX_SAFE_SEQUENCE,
        forall|k: int|
            0 <= k < d.ledger.entries.len() ==> (#[trigger] d.ledger.entries[k]).interaction_id
                != q.interaction_id,
        d.ledger.entries.len() < MAX_INTERACTION_DEDUPE_ENTRIES,
        registry_count(d.reg, q.id) < crate::proto::MAX_SAFE_SEQUENCE,
        forall|k: int|
            0 <= k < d.ledger.entries.len() ==> (#[trigger] d.ledger.entries[k]).lane_interactions
                < crate::proto::MAX_SAFE_SEQUENCE,
    ensures
        exchange(d, q).1 == Some(counted(q.id, false)),
{
    crate::lanes::law_valid_is_faultless(d.reg);
    lemma_known_lane_is_valid(d.reg, q.id);
    assert(report_fault(d, q) is None);
    let d0 = admitting(d, q);
    lemma_entry_position(d.ledger.entries, q.interaction_id, 0);
    lemma_pruned(d.ledger.entries, window_start(q.now_ms), q.interaction_id);
    assert(exchange(d, q) == after_emptying(admit_turn(d0, q)));
    let v = d0.ledger.entries;
    assert forall|k: int| 0 <= k < v.len() && (#[trigger] v[k]).lane_id == q.id implies
        v[k].lane_interactions <= (crate::proto::MAX_SAFE_SEQUENCE - 1) as u64 by {
        crate::relay::outcomes::lemma_filter_holds(
            d.ledger.entries,
            recent_entries(window_start(q.now_ms)),
        );
        assert(v.contains(v[k]));
        assert(d.ledger.entries.contains(v[k]));
        let j = choose|j: int| 0 <= j < d.ledger.entries.len() && d.ledger.entries[j] == v[k];
        assert(d.ledger.entries[j].lane_interactions < crate::proto::MAX_SAFE_SEQUENCE);
    }
    lemma_journaled_below(
        v,
        q.id,
        (crate::proto::MAX_SAFE_SEQUENCE - 1) as u64,
        v.len() as int,
    );
    crate::relay::snapshots::lemma_filter_len(
        d.ledger.entries,
        recent_entries(window_start(q.now_ms)),
    );
    let n = turn_count(d0, q.id)->0;
    let d1 = if d0.ledger.journal_entries >= MAX_INTERACTION_JOURNAL_ENTRIES {
        DaemonView { ledger: compacted(d0.ledger), ..d0 }
    } else {
        d0
    };
    assert(turn_count(d1, q.id) == Some(n));
    assert(exchange(d, q) == after_appending(append_turn(d1, q)));
    let now = stamp(q.now_ms as nat);
    let w = counted_lanes(d.reg, q.id, n, now);
    lemma_counted_lanes(d.reg, q.id, n, q.now_ms as nat);
    lemma_counted_lane_alone(d.reg, q.id, n, now);
    crate::lanes::law_stamps_are_valid(q.now_ms as nat);
    assert(valid_registry(w)) by {
        assert forall|i: int| 0 <= i < w.lanes.len() implies crate::lanes::well_formed_lane(
            #[trigger] w.lanes[i],
        ) && crate::lanes::safe_interactions(w.lanes[i]) by {
            assert(crate::lanes::well_formed_lane(d.reg.lanes[i]));
        }
        assert forall|i: int, j: int| 0 <= i < j < w.lanes.len() implies (
        #[trigger] w.lanes[i]).id != (#[trigger] w.lanes[j]).id by {
            assert(d.reg.lanes[i].id != d.reg.lanes[j].id);
        }
        assert(has_lane(w.lanes, d.reg.active_id) == has_lane(d.reg.lanes, d.reg.active_id));
        assert(has_lane(w.lanes, d.reg.previous_id) == has_lane(d.reg.lanes, d.reg.previous_id));
    }
    crate::lanes::law_valid_is_faultless(w);
}

proof fn lemma_known_lane_is_valid(reg: RegistryView, id: Seq<char>)
    requires
        valid_registry(reg),
        has_lane(reg.lanes, id),
    ensures
        crate::proto::valid_lane_id(id),
{
    let i = choose|i: int| 0 <= i < reg.lanes.len() && (#[trigger] reg.lanes[i]).id == id;
    assert(crate::lanes::well_formed_lane(reg.lanes[i]));
}

/// A report of a turn on record is never counted again, and changes nothing.
/// The same report is answered as a duplicate; the identifier with another lane
/// or another time is refused as a conflict, while the turn is within the
/// window; with a time before the window it is refused as expired.
pub proof fn law_recorded_turn_is_not_counted_again(d: DaemonView, q: ReportView, again: ReportView)
    requires
        recorded(d, q),
        again.interaction_id == q.interaction_id,
        has_lane(d.reg.lanes, again.id),
    ensures
        timely(again) && again.id == q.id && again.interaction_created_at_ms
            == q.interaction_created_at_ms ==> report_turn(d, again) == (
            d,
            InteractionProgressView::Done(counted(q.id, true)),
        ),
        timely(again) && q.interaction_created_at_ms >= window_start(again.now_ms) && (again.id
            != q.id || again.interaction_created_at_ms != q.interaction_created_at_ms)
            ==> report_turn(d, again) == (
            d,
            InteractionProgressView::Done(
                plain(
                    409,
                    "interaction_id was already recorded with different interaction metadata"@,
                ),
            ),
        ),
        again.interaction_created_at_ms < window_start(again.now_ms) ==> report_turn(d, again) == (
            d,
            InteractionProgressView::Done(
                plain(
                    410,
                    "interaction_id is outside the seven-day dedupe retry horizon; it was not counted"@,
                ),
            ),
        ),
{
    let v = d.ledger.entries;
    let p = entry_position(v, q.interaction_id, 0);
    lemma_entry_position(v, q.interaction_id, 0);
    lemma_entries_faultless(v, 0);
    assert(entry_fault(v[p]) is None);
    law_valid_is_faultless(d.reg);
    lemma_position(d.reg.lanes, again.id);
    assert(well_formed_lane(d.reg.lanes[position(d.reg.lanes, again.id)]));
}

/// Raising a lane's count takes no turn off the record.
proof fn lemma_raising_keeps_records(
    d: DaemonView,
    q: ReportView,
    id: Seq<char>,
    count: u64,
    now: nat,
)
    requires
        recorded(d, q),
        has_lane(d.reg.lanes, id),
        registry_count(d.reg, id) <= count,
        registry_fault(counted_lanes(d.reg, id, count, stamp(now))) is None,
    ensures
        recorded(DaemonView { reg: counted_lanes(d.reg, id, count, stamp(now)), ..d }, q),
{
    lemma_counted_lanes(d.reg, id, count, now);
}

/// A turn on record stays on record through every other report, while it is
/// within the window.
pub proof fn law_other_reports_keep_the_record(d: DaemonView, q: ReportView, other: ReportView)
    requires
        recorded(d, q),
        q.interaction_created_at_ms >= window_start(other.now_ms),
    ensures
        recorded(exchange(d, other).0, q),
{
    if report_fault(d, other) is None {
        let d0 = admitting(d, other);
        lemma_pruned(d.ledger.entries, window_start(other.now_ms), q.interaction_id);
        lemma_entry_position(d.ledger.entries, q.interaction_id, 0);
        assert(recorded(d0, q));
        assert(exchange(d, other) == after_emptying(admit_turn(d0, other)));
        let v = d0.ledger.entries;
        lemma_entries_faultless(v, 0);
        lemma_entry_position(v, other.interaction_id, 0);
        let p = entry_position(v, other.interaction_id, 0);
        if p < v.len() {
            let e = v[p];
            assert(entry_fault(e) is None);
            let reg = counted_lanes(
                d0.reg,
                other.id,
                e.lane_interactions,
                stamp(other.now_ms as nat),
            );
            lemma_counted_lanes(d0.reg, other.id, e.lane_interactions, other.now_ms as nat);
            if registry_count(d0.reg, other.id) < e.lane_interactions && registry_fault(
                reg,
            ) is None {
                lemma_raising_keeps_records(
                    d0,
                    q,
                    other.id,
                    e.lane_interactions,
                    other.now_ms as nat,
                );
            }
        } else if turn_count(d0, other.id) is Some {
            let n = turn_count(d0, other.id)->0;
            let d1 = if d0.ledger.journal_entries >= MAX_INTERACTION_JOURNAL_ENTRIES {
                DaemonView { ledger: compacted(d0.ledger), ..d0 }
            } else {
                d0
            };
            assert(turn_count(d1, other.id) == Some(n));
            assert(exchange(d, other) == after_appending(append_turn(d1, other)));
            if v.len() < MAX_INTERACTION_DEDUPE_ENTRIES {
                let e = new_entry(other, n);
                let w = v.push(e);
                let t = DaemonView { ledger: appended(d1.ledger, e), ..d1 };
                lemma_appended(d1, other, n);
                lemma_entries_faultless(w, 0);
                lemma_entry_position(v, q.interaction_id, 0);
                lemma_entry_position(w, q.interaction_id, 0);
                assert forall|k: int| 0 <= k < w.len() implies entry_fault(#[trigger] w[k]) is None by {
                    if k < v.len() {
                        assert(w[k] == v[k]);
                    }
                }
                let a = entry_position(v, q.interaction_id, 0);
                let b = entry_position(w, q.interaction_id, 0);
                assert(w[a] == v[a]);
                if b < a {
                    assert(w[b] == v[b]);
                }
                assert(a == b);
                assert(recorded(t, q));
                if registry_fault(
                    counted_lanes(t.reg, other.id, n, stamp(other.now_ms as nat)),
                ) is None {
                    lemma_raising_keeps_records(t, q, other.id, n, other.now_ms as nat);
                }
            }
        }
    }
}

// ---- other requests in between ------------------------------------------------------

/// Whether every lane stays and no count goes down.
pub open spec fn keeps_lanes(before: RegistryView, after: RegistryView) -> bool {
    forall|id: Seq<char>| #[trigger]
        has_lane(before.lanes, id) ==> has_lane(after.lanes, id) && registry_count(before, id)
            <= registry_count(after, id)
}

/// The daemon after a change of the lanes, once it is saved where that is asked
/// for.
pub open spec fn saved(p: (DaemonView, LaneProgressView)) -> DaemonView {
    match p.1 {
        LaneProgressView::Done(_) => p.0,
        LaneProgressView::Save(s) => after_save(p.0, s, Ok(())),
    }
}

/// Lanes that stay in their places, with counts that do not go down, are kept.
proof fn lemma_places_kept(before: RegistryView, after: RegistryView)
    requires
        before.lanes.len() <= after.lanes.len(),
        forall|i: int|
            0 <= i < before.lanes.len() ==> (#[trigger] after.lanes[i]).id == before.lanes[i].id
                && count_of(before.lanes[i]) <= count_of(after.lanes[i]),
    ensures
        keeps_lanes(before, after),
{
    assert forall|id: Seq<char>| #[trigger] has_lane(before.lanes, id) implies has_lane(
        after.lanes,
        id,
    ) && registry_count(before, id) <= registry_count(after, id) by {
        lemma_position(before.lanes, id);
        lemma_position(after.lanes, id);
        let p = position(before.lanes, id);
        let r = position(after.lanes, id);
        assert(after.lanes[p].id == id);
        if r < p {
            assert(after.lanes[r].id == before.lanes[r].id);
        }
    }
}

proof fn lemma_kept_through(a: RegistryView, b: RegistryView, c: RegistryView)
    requires
        keeps_lanes(a, b),
        keeps_lanes(b, c),
    ensures
        keeps_lanes(a, c),
{
    assert forall|id: Seq<char>| #[trigger] has_lane(a.lanes, id) implies has_lane(c.lanes, id)
        && registry_count(a, id) <= registry_count(c, id) by {
        assert(has_lane(b.lanes, id));
    }
}

proof fn lemma_switch_keeps_lanes(reg: RegistryView, id: Seq<char>, now: Seq<char>)
    requires
        has_lane(reg.lanes, id),
    ensures
        keeps_lanes(reg, switched(reg, id, now)),
        keeps_lanes(reg, touched(reg, id, now)),
        distinct_ids(reg.lanes) ==> distinct_ids(switched(reg, id, now).lanes),
{
    lemma_position(reg.lanes, id);
    lemma_places_kept(reg, switched(reg, id, now));
    lemma_places_kept(reg, touched(reg, id, now));
}

proof fn lemma_create_keeps_lanes(reg: RegistryView, name: Seq<char>, now: Seq<char>)
    requires
        create_refusal(reg.lanes, name) is None,
    ensures
        keeps_lanes(reg, created_and_switched(reg, name, now)),
        distinct_ids(reg.lanes) ==> distinct_ids(created_and_switched(reg, name, now).lanes),
{
    lemma_created_is_reachable(reg, name, now);
    let made = created(reg, name, now);
    if distinct_ids(reg.lanes) {
        assert forall|i: int, j: int| 0 <= i < j < made.lanes.len() implies (
        #[trigger] made.lanes[i]).id != (#[trigger] made.lanes[j]).id by {
            assert(made.lanes[i] == reg.lanes[i]);
            if j < reg.lanes.len() {
                assert(made.lanes[j] == reg.lanes[j]);
            }
        }
    }
    lemma_places_kept(reg, made);
    lemma_switch_keeps_lanes(made, created_lane(reg, name, now).id, now);
    lemma_kept_through(reg, made, created_and_switched(reg, name, now));
}

/// No spoken command drops a lane or lowers a count.
pub proof fn law_actions_keep_lanes(reg: RegistryView, action: ActionView, now_ms: nat)
    ensures
        keeps_lanes(reg, after_action(reg, action, now_ms)),
{
    let now = stamp(now_ms);
    match action {
        ActionView::Switch(lane) => {
            if reachable(reg, lane.id) {
                lemma_switch_keeps_lanes(reg, lane.id, now);
            }
        },
        ActionView::New(name) => {
            if create_refusal(reg.lanes, name) is None {
                lemma_create_keeps_lanes(reg, name, now);
            }
        },
        ActionView::Fork(opt) => {
            let name = fork_lane_name(reg, opt);
            if create_refusal(reg.lanes, name) is None {
                lemma_create_keeps_lanes(reg, name, now);
            }
        },
        _ => {},
    }
}

/// No call of a model drops a lane, lowers a count, or makes a lane twice.
pub proof fn law_calls_keep_lanes(
    reg: RegistryView,
    calls: Seq<CallView>,
    now: Seq<char>,
    n: int,
)
    requires
        0 <= n <= calls.len(),
    ensures
        keeps_lanes(reg, after_calls(reg, calls, now, n)),
        distinct_ids(reg.lanes) ==> distinct_ids(after_calls(reg, calls, now, n).lanes),
    decreases n,
{
    if n > 0 {
        law_calls_keep_lanes(reg, calls, now, n - 1);
        let before = after_calls(reg, calls, now, n - 1);
        let c = calls[n - 1];
        let name = text_or(call_arguments(c).field("name"@), Seq::empty());
        match named_tool(c.name) {
            Some(SteeringTool::SwitchLane) => {
                match meant_lane(name, before.lanes) {
                    Some(lane) => {
                        if reachable(before, lane.id) {
                            lemma_switch_keeps_lanes(before, lane.id, now);
                        }
                    },
                    None => {},
                }
            },
            Some(SteeringTool::CreateLane) => {
                if create_refusal(before.lanes, name) is None {
                    lemma_create_keeps_lanes(before, name, now);
                }
            },
            _ => {},
        }
        assert(keeps_lanes(before, after_calls(reg, calls, now, n)));
        lemma_kept_through(reg, before, after_calls(reg, calls, now, n));
    }
}

/// A merge keeps every lane and lowers no count, where the model's copy did not.
proof fn lemma_merge_keeps_lanes(
    base: RegistryView,
    proposed: RegistryView,
    current: RegistryView,
    same_revision: bool,
)
    requires
        keeps_lanes(base, proposed),
        distinct_ids(proposed.lanes),
        distinct_ids(current.lanes),
    ensures
        keeps_lanes(current, merged(base, proposed, current, same_revision)),
{
    let n = proposed.lanes.len() as int;
    let w = merged_lanes(base.lanes, proposed.lanes, current.lanes, n);
    law_merge_keeps_concurrent_changes(base.lanes, proposed.lanes, current.lanes, n);
    assert forall|i: int| 0 <= i < current.lanes.len() implies (#[trigger] w[i]).id
        == current.lanes[i].id && count_of(current.lanes[i]) <= count_of(w[i]) by {
        let id = current.lanes[i].id;
        if w[i] != current.lanes[i] {
            assert(has_lane(base.lanes, id));
            assert(registry_count(base, id) <= registry_count(proposed, id));
            lemma_position(base.lanes, id);
            lemma_position(proposed.lanes, id);
            let k = choose|k: int| 0 <= k < n && proposed.lanes[k] == w[i];
            let p = position(proposed.lanes, id);
            assert(proposed.lanes[k].id == id);
            if p < k {
                assert(proposed.lanes[p].id != proposed.lanes[k].id);
            }
            if k < p {
                assert(proposed.lanes[k].id != id);
            }
        }
    }
    lemma_places_kept(current, merged(base, proposed, current, same_revision));
}

/// A turn stays on record through a change of the lanes that keeps every lane
/// and lowers no count.
pub proof fn law_lane_changes_keep_the_record(
    d: DaemonView,
    q: ReportView,
    after: RegistryView,
    success: ResponseView,
)
    requires
        recorded(d, q),
        keeps_lanes(d.reg, after),
    ensures
        recorded(saved(changed_lanes(d, after, success)), q),
{
    assert(has_lane(d.reg.lanes, q.id));
}

proof fn lemma_create_keeps_the_record(d: DaemonView, q: ReportView, name: Seq<char>, now_ms: nat)
    requires
        recorded(d, q),
    ensures
        recorded(saved(create_turn(d, name, now_ms)), q),
{
    let now = stamp(now_ms);
    if create_refusal(d.reg.lanes, name) is None {
        lemma_create_keeps_lanes(d.reg, name, now);
        law_lane_changes_keep_the_record(
            d,
            q,
            created_and_switched(d.reg, name, now),
            lane_ok(created_lane(d.reg, name, now)),
        );
    }
}

proof fn lemma_switch_keeps_the_record(d: DaemonView, q: ReportView, id: Seq<char>, now_ms: nat)
    requires
        recorded(d, q),
    ensures
        recorded(saved(activate_turn(d, id, now_ms)), q),
        recorded(saved(touch_turn(d, id, now_ms)), q),
{
    let now = stamp(now_ms);
    if has_lane(d.reg.lanes, id) {
        lemma_switch_keeps_lanes(d.reg, id, now);
        let after = switched(d.reg, id, now);
        law_lane_changes_keep_the_record(
            d,
            q,
            after,
            lane_ok(after.lanes[position(after.lanes, id)]),
        );
        law_lane_changes_keep_the_record(d, q, touched(d.reg, id, now), bare_ok());
    }
}

/// The daemon after an utterance, where every write that it asks for succeeds.
pub open spec fn after_speaking(p: (DaemonView, MetaStepView)) -> DaemonView {
    match p.1 {
        MetaStepView::AskModel(_) => p.0,
        MetaStepView::Turn(progress, _, _) => saved((p.0, progress)),
    }
}

proof fn lemma_speech_keeps_the_record(
    d: DaemonView,
    q: ReportView,
    utterance: Seq<char>,
    model: bool,
    now_ms: nat,
)
    requires
        recorded(d, q),
    ensures
        recorded(after_speaking(meta_turn(d, utterance, model, now_ms)), q),
{
    let action = meaning(utterance, d.reg.lanes);
    law_actions_keep_lanes(d.reg, action, now_ms);
    law_lane_changes_keep_the_record(
        d,
        q,
        after_action(d.reg, action, now_ms),
        spoken_ok(spoken(d.reg, action, now_ms)),
    );
}

proof fn lemma_model_keeps_the_record(
    d: DaemonView,
    q: ReportView,
    base: RegistryView,
    proposed: RegistryView,
    base_revision: u64,
    reply: Seq<char>,
)
    requires
        recorded(d, q),
        keeps_lanes(base, proposed),
        distinct_ids(proposed.lanes),
    ensures
        recorded(saved(model_turn(d, base, proposed, base_revision, reply)), q),
{
    law_valid_is_faultless(d.reg);
    lemma_merge_keeps_lanes(base, proposed, d.reg, base_revision == d.revision);
    law_lane_changes_keep_the_record(
        d,
        q,
        merged(base, proposed, d.reg, base_revision == d.revision),
        spoken_ok(reply),
    );
}

/// A request to the daemon.
pub enum EventView {
    Report(ReportView),
    Create(Seq<char>, nat),
    Activate(Seq<char>, nat),
    Touch(Seq<char>, nat),
    Speak(Seq<char>, bool, nat),
    /// A model's reply, with the lanes that it saw and the lanes that it proposes.
    ModelReply(RegistryView, RegistryView, u64, Seq<char>),
    Message(RelayView, JsonView),
    Fork(ForkView, Seq<TurnView>),
}

/// The daemon after a request, where every write that it asks for succeeds.
pub open spec fn after_event(d: DaemonView, e: EventView) -> DaemonView {
    match e {
        EventView::Report(q) => exchange(d, q).0,
        EventView::Create(name, now_ms) => saved(create_turn(d, name, now_ms)),
        EventView::Activate(id, now_ms) => saved(activate_turn(d, id, now_ms)),
        EventView::Touch(id, now_ms) => saved(touch_turn(d, id, now_ms)),
        EventView::Speak(utterance, model, now_ms) => after_speaking(
            meta_turn(d, utterance, model, now_ms),
        ),
        EventView::ModelReply(base, proposed, revision, reply) => saved(
            model_turn(d, base, proposed, revision, reply),
        ),
        EventView::Message(relay, body) => message_turn(d, relay, body).0,
        EventView::Fork(fork, turns) => fork_turn(d, fork, turns).0,
    }
}

/// The daemon after the first `n` requests.
pub open spec fn after_events(d: DaemonView, events: Seq<EventView>, n: int) -> DaemonView
    decreases n,
{
    if n <= 0 || n > events.len() {
        d
    } else {
        after_event(after_events(d, events, n - 1), events[n - 1])
    }
}

/// Whether a request may come while a turn of this time is within the window: a
/// report is handled before the window has passed the turn, and a model's copy
/// of the lanes is one that its calls can have made.
pub open spec fn may_come(e: EventView, created_at_ms: u64) -> bool {
    match e {
        EventView::Report(q) => created_at_ms >= window_start(q.now_ms),
        EventView::ModelReply(base, proposed, ..) => keeps_lanes(base, proposed) && distinct_ids(
            proposed.lanes,
        ),
        _ => true,
    }
}

/// A turn stays on record through every request to the daemon, while it is
/// within the window.
pub proof fn law_request_keeps_the_record(d: DaemonView, q: ReportView, e: EventView)
    requires
        recorded(d, q),
        may_come(e, q.interaction_created_at_ms),
    ensures
        recorded(after_event(d, e), q),
{
    match e {
        EventView::Report(other) => {
            law_other_reports_keep_the_record(d, q, other);
        },
        EventView::Create(name, now_ms) => {
            lemma_create_keeps_the_record(d, q, name, now_ms);
        },
        EventView::Activate(id, now_ms) => {
            lemma_switch_keeps_the_record(d, q, id, now_ms);
        },
        EventView::Touch(id, now_ms) => {
            lemma_switch_keeps_the_record(d, q, id, now_ms);
        },
        EventView::Speak(utterance, model, now_ms) => {
            lemma_speech_keeps_the_record(d, q, utterance, model, now_ms);
        },
        EventView::ModelReply(base, proposed, revision, reply) => {
            lemma_model_keeps_the_record(d, q, base, proposed, revision, reply);
        },
        EventView::Message(..) => {},
        EventView::Fork(..) => {},
    }
}

/// A turn on record stays on record through any run of requests, while it is
/// within the window.
pub proof fn law_requests_keep_the_record(
    d: DaemonView,
    q: ReportView,
    events: Seq<EventView>,
    n: int,
)
    requires
        recorded(d, q),
        0 <= n <= events.len(),
        forall|i: int|
            0 <= i < n ==> may_come(#[trigger] events[i], q.interaction_created_at_ms),
    ensures
        recorded(after_events(d, events, n), q),
    decreases n,
{
    if n > 0 {
        law_requests_keep_the_record(d, q, events, n - 1);
        law_request_keeps_the_record(after_events(d, events, n - 1), q, events[n - 1]);
    }
}

/// A report that was answered as newly counted counts once, whatever else the
/// daemon is asked in between. The same report again is answered as a
/// duplicate; the identifier with another lane or another time is refused as a
/// conflict, while the turn is within the window; with a time before the window
/// it is refused as expired. None of them changes anything.
pub proof fn law_counted_report_counts_once(
    d: DaemonView,
    q: ReportView,
    events: Seq<EventView>,
    again: ReportView,
)
    requires
        exchange(d, q).1 == Some(counted(q.id, false)),
        forall|i: int|
            0 <= i < events.len() ==> may_come(#[trigger] events[i], q.interaction_created_at_ms),
        again.interaction_id == q.interaction_id,
        has_lane(
            after_events(exchange(d, q).0, events, events.len() as int).reg.lanes,
            again.id,
        ),
    ensures
        ({
            let t = after_events(exchange(d, q).0, events, events.len() as int);
            &&& timely(again) && again.id == q.id && again.interaction_created_at_ms
                == q.interaction_created_at_ms ==> exchange(t, again) == (
                t,
                Some(counted(q.id, true)),
            )
            &&& timely(again) && q.interaction_created_at_ms >= window_start(again.now_ms) && (
            again.id != q.id || again.interaction_created_at_ms != q.interaction_created_at_ms)
                ==> exchange(t, again) == (
                t,
                Some(
                    plain(
                        409,
                        "interaction_id was already recorded with different interaction metadata"@,
                    ),
                ),
            )
            &&& again.interaction_created_at_ms < window_start(again.now_ms) ==> exchange(t, again)
                == (
                t,
                Some(
                    plain(
                        410,
                        "interaction_id is outside the seven-day dedupe retry horizon; it was not counted"@,
                    ),
                ),
            )
        }),
{
    let x = exchange(d, q).0;
    let n = events.len() as int;
    law_counted_turn_is_on_record(d, q);
    law_requests_keep_the_record(x, q, events, n);
    law_recorded_turn_is_not_counted_again(after_events(x, events, n), q, again);
}

} // verus!
