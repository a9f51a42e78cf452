//! What is refused, and with which status: a refused request changes nothing.
use vstd::prelude::*;

use crate::daemon::delivery_api::{
    consume_turn, delivery_turn, push_turn, relay_answer, RelayProgressView, RelaySaveView,
};
use crate::daemon::interaction_api::{
    admit_turn, appended_turn, compacted_turn, expired_turn, report_fault, report_turn,
    InteractionJournalAppendError, InteractionProgressView, ReportView,
};
use crate::daemon::lane_api::{activate_turn, create_turn, touch_turn};
use crate::daemon::message_api::{
    first_spoken_fault, message_turn, spoken_fault, title_of, DeliveryQueryView,
};
use crate::daemon::meta_api::{meta_turn, model_turn};
use crate::daemon::responses::{refusal, ResponseView};
use crate::daemon::state::{
    after_save, changed_lanes, save_answer, DaemonView, LaneProgressView, LaneSaveView,
    LANE_PERSISTENCE_UNCERTAIN,
};
use crate::hermes_search::shown_title;
use crate::interactions::{entry_position, first_entry_fault, lemma_entry_position, LedgerView};
use crate::lanes::{registry_fault, slug, slug_id, LaneRegistrySaveError, LaneView, RegistryView};
use crate::proto::{valid_lane_id, valid_opaque_id, MAX_SAFE_SEQUENCE};
use crate::relay::errors::RelayError;
use crate::relay::inbound::push_refusal;
use crate::relay::state::{RelayView, WriteOutcome};
use crate::revision::next_revision;
use crate::text::{blank, utf16_len, utf8_len};
use crate::value::JsonView;

verus! {

/// Whether no lane has this identifier.
pub open spec fn no_lane(lanes: Seq<LaneView>, id: Seq<char>) -> bool {
    forall|i: int| 0 <= i < lanes.len() ==> (#[trigger] lanes[i]).id != id
}

/// Whether a request is refused with a plain text.
pub open spec fn plainly(r: ResponseView, status: u16) -> bool {
    r.status == status && !r.json
}

// ---- lanes ----------------------------------------------------------------------

/// A lane that is not known can be neither activated nor touched: it is not found.
pub proof fn law_unknown_lane_is_not_found(d: DaemonView, id: Seq<char>, now_ms: nat)
    requires
        valid_lane_id(id),
        no_lane(d.reg.lanes, id),
    ensures
        activate_turn(d, id, now_ms) == (
            d,
            LaneProgressView::Done(refusal(404, "unknown lane "@ + id)),
        ),
        touch_turn(d, id, now_ms) == activate_turn(d, id, now_ms),
{
}

/// What is no identifier of a lane is refused as such.
pub proof fn law_malformed_lane_id_is_refused(d: DaemonView, id: Seq<char>, now_ms: nat)
    requires
        !valid_lane_id(id),
    ensures
        activate_turn(d, id, now_ms) == (
            d,
            LaneProgressView::Done(refusal(400, "id must match the lane ID grammar"@)),
        ),
        touch_turn(d, id, now_ms) == activate_turn(d, id, now_ms),
{
}

/// Once a save was uncertain, no request that changes the lanes is taken any more,
/// whoever makes it.
pub proof fn law_uncertain_lanes_do_not_change(
    d: DaemonView,
    id: Seq<char>,
    name: Seq<char>,
    utterance: Seq<char>,
    model: bool,
    base: RegistryView,
    proposed: RegistryView,
    base_revision: u64,
    reply: Seq<char>,
    now_ms: nat,
)
    requires
        d.lane_uncertain,
    ensures
        activate_turn(d, id, now_ms).0 == d,
        activate_turn(d, id, now_ms).1 is Done,
        touch_turn(d, id, now_ms).0 == d,
        touch_turn(d, id, now_ms).1 is Done,
        create_turn(d, name, now_ms).0 == d,
        create_turn(d, name, now_ms).1 is Done,
        meta_turn(d, utterance, model, now_ms).0 == d,
        valid_lane_id(id) && !no_lane(d.reg.lanes, id) ==> {
            &&& activate_turn(d, id, now_ms).1->Done_0 == refusal(503, LANE_PERSISTENCE_UNCERTAIN@)
            &&& touch_turn(d, id, now_ms).1->Done_0 == refusal(503, LANE_PERSISTENCE_UNCERTAIN@)
        },
        model_turn(d, base, proposed, base_revision, reply) == (
            d,
            LaneProgressView::Done(refusal(503, LANE_PERSISTENCE_UNCERTAIN@)),
        ),
{
}

/// A new lane needs a name: an empty or blank one is refused, and so is one that
/// holds no letter and no digit, or that makes too long an identifier.
pub proof fn law_new_lane_needs_a_name(d: DaemonView, name: Seq<char>, now_ms: nat)
    ensures
        name.len() == 0 ==> create_turn(d, name, now_ms) == (
            d,
            LaneProgressView::Done(refusal(400, "name required"@)),
        ),
        name.len() > 0 && blank(name) ==> create_turn(d, name, now_ms) == (
            d,
            LaneProgressView::Done(refusal(400, "lane name must not be blank"@)),
        ),
        name.len() > 0 && !blank(name) && (slug(name).len() == 0 || slug(name).len() > 113)
            ==> create_turn(d, name, now_ms) == (
            d,
            LaneProgressView::Done(
                refusal(400, "lane name is too long to produce a valid lane identifier"@),
            ),
        ),
{
    reveal_strlit("telepathy:repo:");
}

/// Where there are as many lanes as there may be, a further one is a conflict; one
/// of those that are there is entered all the same.
pub proof fn law_full_registry_takes_no_lane(d: DaemonView, name: Seq<char>, now_ms: nat)
    requires
        !blank(name),
        slug(name).len() > 0,
        valid_lane_id("telepathy:repo:"@ + slug(name)),
        no_lane(d.reg.lanes, "telepathy:repo:"@ + slug(name)),
        d.reg.lanes.len() >= 256,
    ensures
        create_turn(d, name, now_ms).0 == d,
        create_turn(d, name, now_ms).1 is Done,
        create_turn(d, name, now_ms).1->Done_0.status == 409,
{
    assert(slug_id(name) == "telepathy:repo:"@ + slug(name));
    if name.len() == 0 {
        assert(blank(name));
    }
}

/// The revision goes up by one where the active lane, the previous one, or the
/// list of identifiers is another, and stays where only times and counts are.
pub proof fn law_revision_follows_the_selection(
    d: DaemonView,
    after: RegistryView,
    success: ResponseView,
)
    requires
        registry_fault(after) is None,
        next_revision(d.revision) == Some((d.revision + 1) as u64),
    ensures
        ({
            let p = changed_lanes(d, after, success);
            let same = d.reg.active_id == after.active_id && d.reg.previous_id
                == after.previous_id && d.reg.lanes.map_values(|l: LaneView| l.id)
                =~= after.lanes.map_values(|l: LaneView| l.id);
            &&& p.0.reg == after
            &&& p.0.revision == (if same {
                d.revision as int
            } else {
                d.revision + 1
            })
            &&& p.0 == (DaemonView { reg: after, revision: p.0.revision, ..d })
            &&& p.1 is Save
            &&& p.1->Save_0.before == d.reg
            &&& p.1->Save_0.revision_before == d.revision
            &&& p.1->Save_0.success == success
        }),
{
    let a = d.reg.lanes.map_values(|l: LaneView| l.id);
    let b = after.lanes.map_values(|l: LaneView| l.id);
    if a =~= b {
        assert(a.len() == b.len());
        assert forall|i: int| 0 <= i < d.reg.lanes.len() implies (#[trigger] d.reg.lanes[i]).id
            == after.lanes[i].id by {
            assert(a[i] == b[i]);
        }
    }
    if d.reg.lanes.len() == after.lanes.len() && !(a =~= b) {
        let i = choose|i: int| 0 <= i < a.len() && a[i] != b[i];
        assert(d.reg.lanes[i].id != after.lanes[i].id);
    }
}

/// A change stands once it is saved; one that was not saved is taken back, and one
/// that may have been saved stays and stops every further one.
pub proof fn law_save_decides_the_answer(
    d: DaemonView,
    save: LaneSaveView,
    e: LaneRegistrySaveError,
)
    ensures
        after_save(d, save, Ok(())) == d,
        save_answer(save, Ok(())) == save.success,
        ({
            let lost = !(e is AmbiguousPostRename);
            let t = after_save(d, save, Err(e));
            let words = save_answer(save, Err(e));
            &&& t.reg == (if lost {
                save.before
            } else {
                d.reg
            })
            &&& t.revision == (if lost {
                save.revision_before
            } else {
                d.revision
            })
            &&& t.lane_uncertain == (d.lane_uncertain || !lost)
            &&& t.ledger == d.ledger
            &&& t.msg_seq == d.msg_seq
            &&& t.interaction_uncertain == d.interaction_uncertain
            &&& words.status == (if lost {
                500u16
            } else {
                503u16
            })
        }),
{
}

// ---- messages -------------------------------------------------------------------

/// A message is refused where its lane is no identifier, where it says nothing, and
/// where its lane is not known; no number is spent on it.
pub proof fn law_message_needs_lane_and_text(d: DaemonView, relay: RelayView, body: JsonView)
    ensures
        ({
            let t = message_turn(d, relay, body);
            let said = match body.get("text"@) {
                Some(JsonView::Text(s)) => s,
                _ => Seq::empty(),
            };
            let id = match body.get("lane_id"@) {
                None => "telepathos:direct"@,
                Some(JsonView::Text(s)) => s,
                Some(_) => Seq::empty(),
            };
            &&& (!valid_lane_id(id) && body.get("lane_id"@) is Some) || said.len() == 0 ==> {
                &&& t.0 == d
                &&& t.1 is Done
                &&& plainly(t.1->Done_0, 400)
            }
            &&& valid_lane_id(id) && said.len() > 0 && no_lane(d.reg.lanes, id) ==> {
                &&& t.0 == d
                &&& t.1 is Done
                &&& plainly(t.1->Done_0, 404)
                &&& t.1->Done_0.text == "unknown lane "@ + id
            }
            &&& t.1 is Push ==> t.1->Push_0 == id
        }),
{
    assert(!valid_lane_id(Seq::<char>::empty()));
}

/// A message that the relay refuses is too large where it can never be taken, and
/// not for now where it can; the relay stays as it is.
pub proof fn law_refused_push_changes_nothing(
    s: RelayView,
    lane_id: Option<Seq<char>>,
    event: JsonView,
    message_id: Seq<char>,
    e: RelayError,
)
    requires
        push_refusal(s, event, lane_id) == Some(e),
    ensures
        ({
            let t = push_turn(s, lane_id, event, message_id);
            &&& t.0 == s
            &&& t.1 is Done
            &&& plainly(
                t.1->Done_0,
                if e == RelayError::RecordTooLarge {
                    413
                } else {
                    503
                },
            )
        }),
{
}

/// What waits for a write is answered, and sent on, only where the write is
/// certain.
pub proof fn law_write_decides_the_answer(
    save: RelaySaveView,
    outcome: WriteOutcome,
    failure: Seq<char>,
)
    ensures
        outcome == WriteOutcome::Committed ==> relay_answer(save, outcome, failure) == (
            save.success,
            save.frame,
        ),
        outcome != WriteOutcome::Committed ==> {
            let a = relay_answer(save, outcome, failure);
            &&& plainly(a.0, save.failed)
            &&& a.0.text == failure
            &&& a.1 is None
        },
{
}

// ---- deliveries -----------------------------------------------------------------

/// A read of deliveries is sound where its lane and its message are well named and
/// its bounds are safe, and one that removes them names a known lane, a message,
/// and a range that is not empty. Any other read is refused and removes nothing.
pub proof fn law_read_is_refused_unless_sound(
    reg: RegistryView,
    s: RelayView,
    q: DeliveryQueryView,
)
    ensures
        ({
            let whole = q.lane_id is Some && q.reply_to is Some && q.through_seq is Some;
            let named = (q.lane_id is Some ==> valid_lane_id(q.lane_id->0)) && (q.reply_to is Some
                ==> valid_opaque_id(q.reply_to->0));
            let safe = q.after <= 9_007_199_254_740_991 && (q.through_seq is Some
                ==> q.through_seq->0 <= 9_007_199_254_740_991);
            let fit = named && safe && (q.consume ==> whole && q.after < q.through_seq->0);
            let known = q.consume ==> !no_lane(reg.lanes, q.lane_id->0);
            let t = delivery_turn(reg, s, q);
            &&& !(fit && known) ==> {
                &&& t.0 == s
                &&& t.1 is Done
                &&& plainly(
                    t.1->Done_0,
                    if fit {
                        404
                    } else {
                        400
                    },
                )
            }
            &&& fit && known && s.persistence_failure is Some ==> {
                &&& t.0 == s
                &&& t.1 is Done
                &&& plainly(t.1->Done_0, 500)
            }
            &&& fit && known && s.persistence_failure is None ==> match t.1 {
                RelayProgressView::Done(r) => r.status == 200 && r.json,
                RelayProgressView::Write(w) => q.consume && w.success.status == 200
                    && w.success.json && w.failed == 500 && !w.inbound && w.frame is None,
            }
        }),
{
}

proof fn lemma_spoken_faults(v: Seq<JsonView>, i: int)
    requires
        0 <= i <= v.len(),
    ensures
        first_spoken_fault(v, i) is None <==> (forall|k: int|
            i <= k < v.len() ==> #[trigger] spoken_fault(v, k) is None),
        first_spoken_fault(v, i) is Some ==> plainly(first_spoken_fault(v, i)->0, 400),
    decreases v.len() - i,
{
    if i < v.len() {
        lemma_spoken_faults(v, i + 1);
    }
}

/// Deliveries are taken as heard where the request names a known lane and from one
/// to two hundred sequences, each a safe number from one up, and none twice; any
/// other request is refused and removes nothing.
pub proof fn law_only_sound_sequences_are_consumed(
    reg: RegistryView,
    s: RelayView,
    body: JsonView,
    lane_id: Seq<char>,
    v: Seq<JsonView>,
)
    requires
        body.get("lane_id"@) == Some(JsonView::Text(lane_id)),
        body.get("sequences"@) == Some(JsonView::List(v)),
    ensures
        ({
            let numbers = forall|i: int|
                0 <= i < v.len() ==> {
                    let n = (#[trigger] v[i]).natural();
                    n is Some && 1 <= n->0 <= 9_007_199_254_740_991
                };
            let apart = forall|i: int, j: int|
                0 <= i < j < v.len() ==> (#[trigger] v[i]).natural() != (
                #[trigger] v[j]).natural();
            let fit = valid_lane_id(lane_id) && 1 <= v.len() <= 200 && numbers && apart;
            let t = consume_turn(reg, s, body);
            &&& !fit ==> t.0 == s && t.1 is Done && plainly(t.1->Done_0, 400)
            &&& fit && no_lane(reg.lanes, lane_id) ==> t.0 == s && t.1 is Done && plainly(
                t.1->Done_0,
                404,
            )
        }),
{
    lemma_spoken_faults(v, 0);
    let numbers = forall|i: int|
        0 <= i < v.len() ==> {
            let n = (#[trigger] v[i]).natural();
            n is Some && 1 <= n->0 <= 9_007_199_254_740_991
        };
    let apart = forall|i: int, j: int|
        0 <= i < j < v.len() ==> (#[trigger] v[i]).natural() != (#[trigger] v[j]).natural();
    if first_spoken_fault(v, 0) is None {
        assert forall|i: int| 0 <= i < v.len() implies {
            let n = (#[trigger] v[i]).natural();
            n is Some && 1 <= n->0 <= 9_007_199_254_740_991
        } by {
            assert(spoken_fault(v, i) is None);
        }
        assert forall|i: int, j: int| 0 <= i < j < v.len() implies (#[trigger] v[i]).natural() != (
        #[trigger] v[j]).natural() by {
            assert(spoken_fault(v, j) is None);
            assert(spoken_fault(v, i) is None);
        }
    }
    if numbers && apart {
        assert forall|k: int| 0 <= k < v.len() implies #[trigger] spoken_fault(v, k) is None by {
            assert(v[k].natural() is Some);
        }
    }
}

// ---- reports --------------------------------------------------------------------

/// A report is taken where its lane is known, its identifier is sound, nothing is
/// uncertain, and its time is at most seven days back and five minutes ahead.
pub proof fn law_report_is_taken_when_it_is_sound(d: DaemonView, q: ReportView)
    requires
        registry_fault(d.reg) is None,
        first_entry_fault(d.ledger.entries, 0) is None,
        q.now_ms <= MAX_SAFE_SEQUENCE,
    ensures
        report_fault(d, q) is None <==> {
            &&& valid_lane_id(q.id)
            &&& valid_opaque_id(q.interaction_id)
            &&& !no_lane(d.reg.lanes, q.id)
            &&& !d.interaction_uncertain
            &&& !d.lane_uncertain
            &&& q.now_ms - 604_800_000 <= q.interaction_created_at_ms
            &&& q.interaction_created_at_ms <= q.now_ms + 300_000
        },
        report_fault(d, q) is Some ==> report_turn(d, q) == (
            d,
            InteractionProgressView::Done(report_fault(d, q)->0),
        ),
{
}

/// Each unsound report is told why by its status: too long, malformed, not found,
/// gone, too early, or not for now.
pub proof fn law_refused_report_is_told_why(d: DaemonView, q: ReportView)
    requires
        registry_fault(d.reg) is None,
        first_entry_fault(d.ledger.entries, 0) is None,
        q.now_ms <= MAX_SAFE_SEQUENCE,
    ensures
        utf8_len(q.interaction_id) > 256 || utf16_len(q.interaction_id) > 256 ==> plainly(
            report_fault(d, q)->0,
            413,
        ),
        utf8_len(q.interaction_id) <= 256 && utf16_len(q.interaction_id) <= 256 && (!valid_lane_id(
            q.id,
        ) || !valid_opaque_id(q.interaction_id)) ==> plainly(report_fault(d, q)->0, 400),
        valid_lane_id(q.id) && valid_opaque_id(q.interaction_id) ==> {
            let r = report_fault(d, q)->0;
            let clear = !d.interaction_uncertain && !d.lane_uncertain;
            let known = clear && !no_lane(d.reg.lanes, q.id);
            &&& d.interaction_uncertain ==> plainly(r, 503)
            &&& !clear ==> r.status == 503
            &&& clear && no_lane(d.reg.lanes, q.id) ==> plainly(r, 404) && r.text
                == "unknown lane "@ + q.id
            &&& known && q.interaction_created_at_ms < q.now_ms - 604_800_000 ==> plainly(r, 410)
            &&& known && q.interaction_created_at_ms > q.now_ms + 300_000 ==> plainly(r, 400)
        },
{
}

/// A turn that is on record is not counted under another lane or another time: such
/// a report is a conflict and changes nothing.
pub proof fn law_other_turn_of_the_same_name_is_a_conflict(d: DaemonView, q: ReportView, k: int)
    requires
        0 <= k < d.ledger.entries.len(),
        d.ledger.entries[k].interaction_id == q.interaction_id,
        forall|j: int|
            0 <= j < k ==> (#[trigger] d.ledger.entries[j]).interaction_id != q.interaction_id,
        d.ledger.entries[k].lane_id != q.id || d.ledger.entries[k].interaction_created_at_ms
            != q.interaction_created_at_ms,
    ensures
        admit_turn(d, q).0 == d,
        admit_turn(d, q).1 is Done,
        plainly(admit_turn(d, q).1->Done_0, 409),
{
    lemma_entry_position(d.ledger.entries, q.interaction_id, 0);
    let p = entry_position(d.ledger.entries, q.interaction_id, 0);
    if p < k {
        assert(d.ledger.entries[p].interaction_id == q.interaction_id);
    }
    if p > k {
        assert(d.ledger.entries[k].interaction_id != q.interaction_id);
    }
}

/// Where ten thousand turns are on record, a new one is refused for now.
pub proof fn law_full_ledger_takes_no_turn(d: DaemonView, q: ReportView)
    requires
        d.ledger.entries.len() >= 10_000,
        forall|j: int|
            0 <= j < d.ledger.entries.len() ==> (#[trigger] d.ledger.entries[j]).interaction_id
                != q.interaction_id,
        d.ledger.journal_entries < 128,
    ensures
        admit_turn(d, q).0 == d,
        admit_turn(d, q).1 is Done,
        admit_turn(d, q).1->Done_0.status >= 500,
        crate::daemon::interaction_api::turn_count(d, q.id) is Some ==> plainly(
            admit_turn(d, q).1->Done_0,
            503,
        ),
{
    lemma_entry_position(d.ledger.entries, q.interaction_id, 0);
    let p = entry_position(d.ledger.entries, q.interaction_id, 0);
    if p < d.ledger.entries.len() {
        assert(d.ledger.entries[p].interaction_id == q.interaction_id);
    }
}

/// A journal of a hundred and twenty-eight lines is emptied before a new turn is
/// written to it.
pub proof fn law_full_journal_is_emptied_first(d: DaemonView, q: ReportView)
    requires
        forall|j: int|
            0 <= j < d.ledger.entries.len() ==> (#[trigger] d.ledger.entries[j]).interaction_id
                != q.interaction_id,
        crate::daemon::interaction_api::turn_count(d, q.id) is Some,
        d.ledger.entries.len() < 10_000,
    ensures
        d.ledger.journal_entries >= 128 ==> admit_turn(d, q) == (
            d,
            InteractionProgressView::CompactJournal(q),
        ),
        d.ledger.journal_entries < 128 ==> admit_turn(d, q).1 is Append && admit_turn(d, q).0 == d,
{
    lemma_entry_position(d.ledger.entries, q.interaction_id, 0);
    let p = entry_position(d.ledger.entries, q.interaction_id, 0);
    if p < d.ledger.entries.len() {
        assert(d.ledger.entries[p].interaction_id == q.interaction_id);
    }
}

/// A turn whose line is not in the journal is not counted; where the line may be
/// there, no further report is taken.
pub proof fn law_unwritten_turn_is_not_counted(
    d: DaemonView,
    q: ReportView,
    l: LedgerView,
    e: crate::interactions::EntryView,
    error: InteractionJournalAppendError,
    words: Seq<char>,
)
    ensures
        ({
            let p = appended_turn(d, q, e, Err(error));
            &&& p.0.ledger == d.ledger
            &&& p.0.reg == d.reg
            &&& p.0.revision == d.revision
            &&& p.0.lane_uncertain == d.lane_uncertain
            &&& p.0.msg_seq == d.msg_seq
            &&& p.0.interaction_uncertain == (d.interaction_uncertain || !(error is Definite))
            &&& p.1 is Done
            &&& plainly(
                p.1->Done_0,
                if error is Definite {
                    500
                } else {
                    503
                },
            )
        }),
        expired_turn(d, q, l, Err(words)).0 == d,
        compacted_turn(d, q, Err(words)).0 == d,
        expired_turn(d, q, l, Err(words)).1 is Done,
        plainly(expired_turn(d, q, l, Err(words)).1->Done_0, 500),
        compacted_turn(d, q, Err(words)).1 == expired_turn(d, q, l, Err(words)).1,
{
}

// ---- titles ---------------------------------------------------------------------

/// Of the titles that a lane has, the last one that can be shown is shown.
pub proof fn law_last_title_is_shown(titles: Seq<(Seq<char>, Seq<char>)>, id: Seq<char>, k: int)
    requires
        0 <= k < titles.len(),
        titles[k].0 == id,
        shown_title(titles[k].1) is Some,
        forall|j: int|
            k < j < titles.len() ==> (#[trigger] titles[j]).0 != id || shown_title(
                titles[j].1,
            ) is None,
    ensures
        title_of(titles, id) == shown_title(titles[k].1),
    decreases titles.len(),
{
    if k < titles.len() - 1 {
        assert(titles.last() == titles[titles.len() - 1]);
        law_last_title_is_shown(titles.drop_last(), id, k);
    }
}

} // verus!
