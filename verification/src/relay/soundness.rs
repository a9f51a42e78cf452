//! What every operation of the relay keeps: its state can always be written
//! and taken up again, its ledgers stay bounded, and no identifier is used
//! twice.
use vstd::prelude::*;

use crate::json::{
    array_bytes, json_string, lemma_array_bytes_push, lemma_decimal_bytes, lemma_json_string_bytes,
    lemma_key_bytes, lemma_member_bytes, lemma_object_bytes, member, member_texts,
};
use crate::lanes::LaneView;
use crate::proto::{valid_opaque_id, MAX_SAFE_SEQUENCE};
use crate::relay::deliveries::{
    enqueue_refusal, enqueued, next_delivery, queue_overflows, valid_reply_to,
};
use crate::relay::errors::RelayError;
use crate::relay::records::{
    delivery_json, delivery_jsons, result_json, result_jsons, retired_json, retired_jsons,
    retired_members, DeliveryView, OutboundResultView, RetiredOutboundResultView,
};
use crate::relay::results::{
    after_retirement, after_send, answers, expired, law_traces_are_bounded, ledger_overflows,
    lemma_result_position, next_result, reclaimable, reclaimed, record_verdict, recorded,
    result_position, retirement, room_for_trace, send_verdict, success_json, ticked, trace_fits,
    trace_of, traced, traces_after, unexpired, ResultRetirement,
};
use crate::relay::snapshots::{
    deliveries_fault, delivery_fault, distinct_results, distinct_traces, first_delivery_fault,
    ledger_fault, seq_before, valid_gateway_id, valid_result, valid_trace,
};
use crate::relay::state::{
    RelayView, MAX_OUTBOUND_RESULTS, MAX_RETIRED_OUTBOUND_RESULTS,
    MAX_RETIRED_OUTBOUND_RESULT_BYTES,
};
use crate::text::{blank, decimal, utf8_len};

verus! {

// ---- sizes of selections --------------------------------------------------------

/// A selection takes no more bytes than what it is from.
pub proof fn lemma_filter_bytes<A>(s: Seq<A>, p: spec_fn(A) -> bool, f: spec_fn(A) -> Seq<char>)
    ensures
        array_bytes(s.filter(p).map_values(f)) <= array_bytes(s.map_values(f)),
        s.filter(p).len() <= s.len(),
    decreases s.len(),
{
    reveal(Seq::filter);
    if s.len() > 0 {
        let d = s.drop_last();
        lemma_filter_bytes(d, p, f);
        lemma_array_bytes_push(d.map_values(f), f(s.last()));
        assert(d.map_values(f).push(f(s.last())) =~= s.map_values(f));
        if p(s.last()) {
            let k = d.filter(p);
            lemma_array_bytes_push(k.map_values(f), f(s.last()));
            assert(k.map_values(f).push(f(s.last())) =~= s.filter(p).map_values(f));
        }
    } else {
        assert(s.filter(p).map_values(f) =~= s.map_values(f));
    }
}

/// What is left after one is removed takes no more bytes.
pub proof fn lemma_remove_bytes(s: Seq<Seq<char>>, i: int)
    requires
        0 <= i < s.len(),
    ensures
        array_bytes(s.remove(i)) <= array_bytes(s),
    decreases s.len(),
{
    let d = s.drop_last();
    lemma_array_bytes_push(d, s.last());
    assert(d.push(s.last()) =~= s);
    if i == s.len() - 1 {
        assert(s.remove(i) =~= d);
    } else {
        lemma_remove_bytes(d, i);
        lemma_array_bytes_push(d.remove(i), s.last());
        assert(d.remove(i).push(s.last()) =~= s.remove(i));
    }
}

// ---- deliveries -----------------------------------------------------------------

proof fn lemma_no_delivery_fault(v: Seq<DeliveryView>, i: int, lanes: Option<Seq<LaneView>>)
    requires
        0 <= i <= v.len(),
    ensures
        first_delivery_fault(v, i, lanes) is None <==> (forall|k: int|
            i <= k < v.len() ==> #[trigger] delivery_fault(v, k, lanes) is None),
    decreases v.len() - i,
{
    if i < v.len() {
        lemma_no_delivery_fault(v, i + 1, lanes);
    }
}

/// Deliveries with nothing wrong have no faulty one among them.
pub proof fn lemma_faultless_deliveries(
    v: Seq<DeliveryView>,
    next_seq: u64,
    lanes: Option<Seq<LaneView>>,
)
    requires
        deliveries_fault(v, next_seq, lanes) is None,
    ensures
        forall|k: int| 0 <= k < v.len() ==> #[trigger] delivery_fault(v, k, lanes) is None,
{
    lemma_no_delivery_fault(v, 0, lanes);
}

/// Deliveries without a faulty one among them have no first fault.
pub proof fn lemma_all_deliveries_fine(v: Seq<DeliveryView>)
    requires
        forall|k: int| 0 <= k < v.len() ==> #[trigger] delivery_fault(v, k, None) is None,
    ensures
        first_delivery_fault(v, 0, None) is None,
{
    lemma_no_delivery_fault(v, 0, None);
}

/// Whether the waiting deliveries could be taken up again.
pub open spec fn sound_deliveries(s: RelayView) -> bool {
    deliveries_fault(s.deliveries, s.next_seq, None) is None
}

/// A queued delivery keeps the queue sound, and its sequence is greater than
/// every one before it. A blank content is never written, so it is left out.
pub proof fn law_queueing_keeps_deliveries_sound(
    s: RelayView,
    chat_id: Seq<char>,
    content: Seq<char>,
    reply_to: Option<Seq<char>>,
    arrived_at: u64,
)
    requires
        sound_deliveries(s),
        enqueue_refusal(s, chat_id, content, reply_to, arrived_at) is None,
        !blank(content),
    ensures
        ({
            let d = next_delivery(s, chat_id, content, reply_to, arrived_at);
            &&& sound_deliveries(enqueued(s, d))
            &&& d.seq == s.next_seq + 1
            &&& forall|i: int|
                0 <= i < s.deliveries.len() ==> (#[trigger] s.deliveries[i]).seq < d.seq
        }),
{
    let d = next_delivery(s, chat_id, content, reply_to, arrived_at);
    lemma_push_delivery(s, d);
}

/// One more delivery that fits keeps the queue sound.
pub proof fn lemma_push_delivery(s: RelayView, d: DeliveryView)
    requires
        sound_deliveries(s),
        d.seq == s.next_seq + 1,
        s.next_seq < MAX_SAFE_SEQUENCE,
        s.deliveries.len() < crate::relay::state::MAX_PENDING_DELIVERIES,
        !queue_overflows(s.deliveries, d),
        crate::proto::valid_lane_id(d.chat_id),
        !blank(d.content),
        utf8_len(d.content) <= crate::relay::state::MAX_DELIVERY_CONTENT_BYTES,
        valid_reply_to(d.reply_to),
    ensures
        sound_deliveries(enqueued(s, d)),
        forall|i: int| 0 <= i < s.deliveries.len() ==> (#[trigger] s.deliveries[i]).seq < d.seq,
{
    let v = s.deliveries;
    let w = v.push(d);
    lemma_faultless_deliveries(v, s.next_seq, None);
    lemma_rising(v, s.next_seq);
    assert(delivery_jsons(w) =~= delivery_jsons(v).push(delivery_json(d)));
    assert forall|k: int| 0 <= k < w.len() implies #[trigger] delivery_fault(w, k, None) is None by {
        if k < v.len() {
            assert(delivery_fault(v, k, None) is None);
            assert(seq_before(w, k) == seq_before(v, k));
        }
    }
    lemma_no_delivery_fault(w, 0, None);
}

/// The sequences of sound deliveries rise, and none is above the newest.
pub proof fn lemma_rising(v: Seq<DeliveryView>, next_seq: u64)
    requires
        deliveries_fault(v, next_seq, None) is None,
    ensures
        forall|i: int, j: int|
            0 <= i < j < v.len() ==> (#[trigger] v[i]).seq < (#[trigger] v[j]).seq,
        forall|i: int| 0 <= i < v.len() ==> (#[trigger] v[i]).seq <= next_seq,
{
    lemma_faultless_deliveries(v, next_seq, None);
    assert forall|i: int, j: int| 0 <= i < j < v.len() implies (#[trigger] v[i]).seq < (
    #[trigger] v[j]).seq by {
        lemma_rising_pair(v, i, j);
    }
    assert forall|i: int| 0 <= i < v.len() implies (#[trigger] v[i]).seq <= next_seq by {
        if i < v.len() - 1 {
            assert(v[i].seq < v[v.len() - 1].seq);
        }
    }
}

proof fn lemma_rising_pair(v: Seq<DeliveryView>, i: int, j: int)
    requires
        0 <= i < j < v.len(),
        forall|k: int| 0 <= k < v.len() ==> #[trigger] delivery_fault(v, k, None) is None,
    ensures
        v[i].seq < v[j].seq,
    decreases j,
{
    assert(delivery_fault(v, j, None) is None);
    if i < j - 1 {
        lemma_rising_pair(v, i, j - 1);
    }
}

proof fn lemma_filter_deliveries(v: Seq<DeliveryView>, p: spec_fn(DeliveryView) -> bool)
    requires
        forall|k: int| 0 <= k < v.len() ==> #[trigger] delivery_fault(v, k, None) is None,
    ensures
        ({
            let w = v.filter(p);
            &&& forall|k: int| 0 <= k < w.len() ==> #[trigger] delivery_fault(w, k, None) is None
            &&& seq_before(w, w.len() as int) <= seq_before(v, v.len() as int)
        }),
    decreases v.len(),
{
    reveal(Seq::filter);
    let w = v.filter(p);
    if v.len() > 0 {
        let d = v.drop_last();
        assert forall|k: int| 0 <= k < d.len() implies #[trigger] delivery_fault(
            d,
            k,
            None,
        ) is None by {
            assert(delivery_fault(v, k, None) is None);
            assert(seq_before(d, k) == seq_before(v, k));
        }
        lemma_filter_deliveries(d, p);
        let u = d.filter(p);
        assert(delivery_fault(v, v.len() - 1, None) is None);
        assert(seq_before(d, d.len() as int) == seq_before(v, v.len() - 1));
        if p(v.last()) {
            assert(w == u.push(v.last()));
            assert forall|k: int| 0 <= k < w.len() implies #[trigger] delivery_fault(
                w,
                k,
                None,
            ) is None by {
                assert(seq_before(w, k) == seq_before(u, k));
                if k < u.len() {
                    assert(delivery_fault(u, k, None) is None);
                }
            }
        }
    }
}

/// Taking deliveries away, whichever they are, keeps the queue sound and the
/// sequence where it was, so that no sequence is given out again.
pub proof fn law_consuming_keeps_deliveries_sound(s: RelayView, p: spec_fn(DeliveryView) -> bool)
    requires
        sound_deliveries(s),
    ensures
        sound_deliveries(RelayView { deliveries: s.deliveries.filter(p), ..s }),
{
    let v = s.deliveries;
    let w = v.filter(p);
    lemma_faultless_deliveries(v, s.next_seq, None);
    lemma_filter_deliveries(v, p);
    lemma_no_delivery_fault(w, 0, None);
    let f = |d: DeliveryView| delivery_json(d);
    lemma_filter_bytes(v, p, f);
    assert(delivery_jsons(v) =~= v.map_values(f));
    assert(delivery_jsons(w) =~= w.map_values(f));
}

// ---- responses ------------------------------------------------------------------

/// A trace of a valid response always fits its ledger.
pub proof fn lemma_valid_trace_fits(c: RetiredOutboundResultView, next_id: u64)
    requires
        valid_trace(c, next_id),
    ensures
        trace_fits(c),
{
    reveal_strlit("gateway_id");
    reveal_strlit("request_id");
    reveal_strlit("result_id");
    lemma_key_bytes("gateway_id"@);
    lemma_key_bytes("request_id"@);
    lemma_key_bytes("result_id"@);
    lemma_json_string_bytes(c.gateway_id);
    lemma_json_string_bytes(c.request_id);
    lemma_decimal_bytes(c.result_id);
    let fields = retired_members(c);
    lemma_object_bytes(fields);
    let m = member_texts(fields);
    lemma_member_bytes("gateway_id"@, json_string(c.gateway_id));
    lemma_member_bytes("request_id"@, json_string(c.request_id));
    lemma_member_bytes("result_id"@, decimal(c.result_id as nat));
    let e = Seq::<Seq<char>>::empty();
    lemma_array_bytes_push(e, m[0]);
    lemma_array_bytes_push(e.push(m[0]), m[1]);
    lemma_array_bytes_push(e.push(m[0]).push(m[1]), m[2]);
    assert(e.push(m[0]).push(m[1]).push(m[2]) =~= m);
    assert(m[0] == member("gateway_id"@, json_string(c.gateway_id)));
    assert(m[1] == member("request_id"@, json_string(c.request_id)));
    assert(m[2] == member("result_id"@, decimal(c.result_id as nat)));
    lemma_array_bytes_push(e, retired_json(c));
    assert(retired_jsons(Seq::empty()) =~= e);
}

/// No response shares its identifier with a trace.
pub open spec fn ids_apart(
    results: Seq<OutboundResultView>,
    traces: Seq<RetiredOutboundResultView>,
) -> bool {
    forall|i: int, j: int|
        0 <= i < results.len() && 0 <= j < traces.len() ==> (#[trigger] results[i]).result_id != (
        #[trigger] traces[j]).result_id
}

/// Whether the ledger could be taken up again, and no identifier in it, of a
/// response or of a trace, occurs twice.
pub open spec fn sound_ledger(s: RelayView) -> bool {
    &&& ledger_fault(
        s.outbound_results,
        s.retired_outbound_results,
        s.next_outbound_result_id,
        s.clock_high_water_ms,
        s.next_seq,
    ) is None
    &&& ids_apart(s.outbound_results, s.retired_outbound_results)
}

/// Whether traces are valid and distinct.
spec fn fine_traces(v: Seq<RetiredOutboundResultView>, next_id: u64) -> bool {
    &&& v.len() <= MAX_RETIRED_OUTBOUND_RESULTS
    &&& array_bytes(retired_jsons(v)) <= MAX_RETIRED_OUTBOUND_RESULT_BYTES
    &&& forall|i: int| 0 <= i < v.len() ==> valid_trace(#[trigger] v[i], next_id)
    &&& distinct_traces(v)
}

proof fn lemma_traced(
    v: Seq<RetiredOutboundResultView>,
    c: RetiredOutboundResultView,
    next_id: u64,
)
    requires
        fine_traces(v, next_id),
        valid_trace(c, next_id),
        forall|i: int| 0 <= i < v.len() ==> (#[trigger] v[i]).result_id != c.result_id,
    ensures
        fine_traces(traced(v, c), next_id),
        forall|i: int|
            0 <= i < traced(v, c).len() ==> v.contains(#[trigger] traced(v, c)[i]) || traced(
                v,
                c,
            )[i] == c,
        traced(v, c).contains(c),
{
    lemma_valid_trace_fits(c, next_id);
    law_traces_are_bounded(v, c);
    let k = room_for_trace(v, c);
    let w = traced(v, c);
    let off = v.len() - k.len();
    assert forall|i: int| 0 <= i < w.len() implies (v.contains(#[trigger] w[i]) || w[i] == c)
        && valid_trace(w[i], next_id) by {
        if i < k.len() {
            assert(w[i] == v[off + i]);
        }
    }
    assert forall|i: int, j: int| 0 <= i < j < w.len() implies (#[trigger] w[j]).result_id != (
    #[trigger] w[i]).result_id by {
        assert(w[i] == v[off + i]);
        if j < k.len() {
            assert(w[j] == v[off + j]);
        }
    }
    assert(w[w.len() - 1] == c);
}

/// A recorded response keeps the ledger sound, and its identifier is greater
/// than every one before it, live or retired.
pub proof fn law_recording_keeps_ledger_sound(
    s: RelayView,
    gateway_id: Seq<char>,
    request_id: Seq<char>,
    result: Seq<char>,
)
    requires
        sound_ledger(s),
        record_verdict(s, gateway_id, request_id, result) is Recorded,
        valid_gateway_id(gateway_id),
        valid_opaque_id(request_id),
    ensures
        ({
            let r = next_result(s, gateway_id, request_id, result, None);
            &&& sound_ledger(recorded(s, r))
            &&& forall|i: int|
                0 <= i < s.outbound_results.len() ==> (#[trigger] s.outbound_results[i]).result_id
                    < r.result_id
            &&& forall|i: int|
                0 <= i < s.retired_outbound_results.len() ==> (
                #[trigger] s.retired_outbound_results[i]).result_id < r.result_id
        }),
{
    let r = next_result(s, gateway_id, request_id, result, None);
    lemma_result_position(s.outbound_results, gateway_id, request_id, 0);
    lemma_push_result(s, r);
}

proof fn lemma_push_result(s: RelayView, r: OutboundResultView)
    requires
        sound_ledger(s),
        s.outbound_results.len() < MAX_OUTBOUND_RESULTS,
        s.next_outbound_result_id < MAX_SAFE_SEQUENCE,
        r.result_id == s.next_outbound_result_id + 1,
        r.last_seen_at_ms == s.clock_high_water_ms,
        r.delivery_seq is Some ==> 0 < r.delivery_seq->0 <= s.next_seq,
        !ledger_overflows(s.outbound_results, r),
        valid_gateway_id(r.gateway_id),
        valid_opaque_id(r.request_id),
        result_position(s.outbound_results, r.gateway_id, r.request_id, 0)
            == s.outbound_results.len(),
    ensures
        sound_ledger(recorded(s, r)),
        forall|i: int|
            0 <= i < s.outbound_results.len() ==> (#[trigger] s.outbound_results[i]).result_id
                < r.result_id,
        forall|i: int|
            0 <= i < s.retired_outbound_results.len() ==> (
            #[trigger] s.retired_outbound_results[i]).result_id < r.result_id,
{
    let v = s.outbound_results;
    let w = v.push(r);
    let t = s.retired_outbound_results;
    lemma_result_position(v, r.gateway_id, r.request_id, 0);
    assert(result_jsons(w) =~= result_jsons(v).push(result_json(r)));
    assert forall|i: int| 0 <= i < v.len() implies (#[trigger] v[i]).result_id < r.result_id by {
        assert(valid_result(v[i], s.next_outbound_result_id, s.clock_high_water_ms, s.next_seq));
    }
    assert forall|i: int| 0 <= i < t.len() implies (#[trigger] t[i]).result_id < r.result_id
        && valid_trace(t[i], r.result_id) by {
        assert(valid_trace(t[i], s.next_outbound_result_id));
    }
    assert forall|i: int| 0 <= i < w.len() implies valid_result(
        #[trigger] w[i],
        r.result_id,
        s.clock_high_water_ms,
        s.next_seq,
    ) by {
        if i < v.len() {
            assert(valid_result(
                v[i],
                s.next_outbound_result_id,
                s.clock_high_water_ms,
                s.next_seq,
            ));
        }
    }
    assert forall|i: int, j: int| 0 <= i < j < w.len() implies !answers(
        #[trigger] w[j],
        (#[trigger] w[i]).gateway_id,
        w[i].request_id,
    ) && w[j].result_id != w[i].result_id by {
        if j == v.len() {
            assert(!answers(v[i], r.gateway_id, r.request_id));
        } else {
            assert(!answers(v[j], v[i].gateway_id, v[i].request_id));
        }
    }
}

/// A send that is done keeps the deliveries and the ledger sound.
pub proof fn law_sending_keeps_the_relay_sound(
    s: RelayView,
    gateway_id: Seq<char>,
    request_id: Seq<char>,
    d: DeliveryView,
)
    requires
        sound_deliveries(s),
        sound_ledger(s),
        d.seq == s.next_seq + 1,
        send_verdict(s, gateway_id, request_id, d) is Recorded,
        valid_gateway_id(gateway_id),
        valid_opaque_id(request_id),
        crate::proto::valid_lane_id(d.chat_id),
        !blank(d.content),
        utf8_len(d.content) <= crate::relay::state::MAX_DELIVERY_CONTENT_BYTES,
        valid_reply_to(d.reply_to),
    ensures
        sound_deliveries(after_send(s, gateway_id, request_id, d)),
        sound_ledger(after_send(s, gateway_id, request_id, d)),
{
    lemma_push_delivery(s, d);
    let q = enqueued(s, d);
    let r = next_result(s, gateway_id, request_id, success_json(), Some(d.seq));
    lemma_later_sequence(s, q);
    lemma_result_position(s.outbound_results, gateway_id, request_id, 0);
    lemma_push_result(q, r);
    let a = after_send(s, gateway_id, request_id, d);
    assert(a.deliveries == recorded(q, r).deliveries);
    assert(a.outbound_results == recorded(q, r).outbound_results);
}

/// A ledger stays sound when the sequence and the clock move on.
pub proof fn lemma_later_sequence(s: RelayView, t: RelayView)
    requires
        sound_ledger(s),
        t.outbound_results == s.outbound_results,
        t.retired_outbound_results == s.retired_outbound_results,
        t.next_outbound_result_id == s.next_outbound_result_id,
        t.clock_high_water_ms >= s.clock_high_water_ms,
        t.next_seq >= s.next_seq,
    ensures
        sound_ledger(t),
{
    let v = s.outbound_results;
    assert forall|i: int| 0 <= i < v.len() implies valid_result(
        #[trigger] v[i],
        t.next_outbound_result_id,
        t.clock_high_water_ms,
        t.next_seq,
    ) by {
        assert(valid_result(v[i], s.next_outbound_result_id, s.clock_high_water_ms, s.next_seq));
    }
}

/// The clock may move on at any time.
pub proof fn law_ticking_keeps_ledger_sound(s: RelayView, now_ms: u64)
    requires
        sound_ledger(s),
    ensures
        sound_ledger(ticked(s, now_ms)),
{
    lemma_later_sequence(s, ticked(s, now_ms));
}

/// A confirmed response leaves the ledger sound; in a sound ledger its trace
/// always fits, so a confirmation that matches is never refused. Deliveries are
/// left alone.
pub proof fn law_retiring_keeps_ledger_sound(
    s: RelayView,
    gateway_id: Seq<char>,
    request_id: Seq<char>,
    result_id: u64,
)
    requires
        sound_ledger(s),
    ensures
        sound_ledger(after_retirement(s, gateway_id, request_id, result_id)),
        after_retirement(s, gateway_id, request_id, result_id).deliveries == s.deliveries,
        retirement(s, gateway_id, request_id, result_id) != Err::<ResultRetirement, RelayError>(
            RelayError::RetiredTooLarge,
        ),
{
    let v = s.outbound_results;
    let t = s.retired_outbound_results;
    let p = result_position(v, gateway_id, request_id, 0);
    lemma_result_position(v, gateway_id, request_id, 0);
    if p < v.len() {
        let c = trace_of(v[p]);
        assert(valid_result(v[p], s.next_outbound_result_id, s.clock_high_water_ms, s.next_seq));
        lemma_valid_trace_fits(c, s.next_outbound_result_id);
        if s.persistence_failure is None && v[p].result_id == result_id {
            assert forall|i: int| 0 <= i < t.len() implies (#[trigger] t[i]).result_id
                != c.result_id by {
                assert(v[p].result_id != t[i].result_id);
            }
            lemma_traced(t, c, s.next_outbound_result_id);
            lemma_retired_ledger(s, p);
        }
    }
}

proof fn lemma_remove_results(v: Seq<OutboundResultView>, p: int)
    requires
        0 <= p < v.len(),
        distinct_results(v),
    ensures
        distinct_results(v.remove(p)),
        forall|i: int|
            0 <= i < v.remove(p).len() ==> (#[trigger] v.remove(p)[i]).result_id != v[p].result_id
                && v.contains(v.remove(p)[i]),
{
    let w = v.remove(p);
    assert forall|i: int| 0 <= i < w.len() implies (#[trigger] w[i]).result_id != v[p].result_id
        && v.contains(w[i]) by {
        if i < p {
            assert(w[i] == v[i]);
            assert(v[p].result_id != v[i].result_id);
        } else {
            assert(w[i] == v[i + 1]);
            assert(v[i + 1].result_id != v[p].result_id);
        }
    }
    assert forall|i: int, j: int| 0 <= i < j < w.len() implies !answers(
        #[trigger] w[j],
        (#[trigger] w[i]).gateway_id,
        w[i].request_id,
    ) && w[j].result_id != w[i].result_id by {
        let a = if i < p {
            i
        } else {
            i + 1
        };
        let b = if j < p {
            j
        } else {
            j + 1
        };
        assert(w[i] == v[a] && w[j] == v[b]);
        assert(!answers(v[b], v[a].gateway_id, v[a].request_id));
    }
}

/// The ledger after the response at `p` went and left its trace.
proof fn lemma_retired_ledger(s: RelayView, p: int)
    requires
        sound_ledger(s),
        0 <= p < s.outbound_results.len(),
        fine_traces(
            traced(s.retired_outbound_results, trace_of(s.outbound_results[p])),
            s.next_outbound_result_id,
        ),
        forall|i: int|
            0 <= i < traced(s.retired_outbound_results, trace_of(s.outbound_results[p])).len()
                ==> s.retired_outbound_results.contains(
                #[trigger] traced(s.retired_outbound_results, trace_of(s.outbound_results[p]))[i],
            ) || traced(s.retired_outbound_results, trace_of(s.outbound_results[p]))[i] == trace_of(
                s.outbound_results[p],
            ),
    ensures
        sound_ledger(
            RelayView {
                outbound_results: s.outbound_results.remove(p),
                retired_outbound_results: traced(
                    s.retired_outbound_results,
                    trace_of(s.outbound_results[p]),
                ),
                ..s
            },
        ),
{
    let v = s.outbound_results;
    let t = s.retired_outbound_results;
    let w = v.remove(p);
    let u = traced(t, trace_of(v[p]));
    lemma_remove_results(v, p);
    assert(result_jsons(w) =~= result_jsons(v).remove(p));
    lemma_remove_bytes(result_jsons(v), p);
    assert forall|i: int| 0 <= i < w.len() implies valid_result(
        #[trigger] w[i],
        s.next_outbound_result_id,
        s.clock_high_water_ms,
        s.next_seq,
    ) by {
        let k = choose|k: int| 0 <= k < v.len() && v[k] == w[i];
        assert(valid_result(v[k], s.next_outbound_result_id, s.clock_high_water_ms, s.next_seq));
    }
    assert forall|i: int, j: int| 0 <= i < w.len() && 0 <= j < u.len() implies (
    #[trigger] w[i]).result_id != (#[trigger] u[j]).result_id by {
        let a = choose|a: int| 0 <= a < v.len() && v[a] == w[i];
        if t.contains(u[j]) {
            let b = choose|b: int| 0 <= b < t.len() && t[b] == u[j];
            assert(v[a].result_id != t[b].result_id);
        }
    }
}

proof fn lemma_filter_results(v: Seq<OutboundResultView>, p: spec_fn(OutboundResultView) -> bool)
    requires
        distinct_results(v),
    ensures
        ({
            let w = v.filter(p);
            &&& distinct_results(w)
            &&& forall|i: int|
                0 <= i < w.len() ==> p(#[trigger] w[i]) && exists|k: int|
                    0 <= k < v.len() && v[k] == w[i]
        }),
    decreases v.len(),
{
    reveal(Seq::filter);
    let w = v.filter(p);
    if v.len() > 0 {
        let d = v.drop_last();
        assert forall|i: int, j: int| 0 <= i < j < d.len() implies !answers(
            #[trigger] d[j],
            (#[trigger] d[i]).gateway_id,
            d[i].request_id,
        ) && d[j].result_id != d[i].result_id by {
            assert(!answers(v[j], v[i].gateway_id, v[i].request_id));
        }
        lemma_filter_results(d, p);
        let u = d.filter(p);
        assert forall|i: int| 0 <= i < w.len() implies p(#[trigger] w[i]) && exists|k: int|
            0 <= k < v.len() && v[k] == w[i] by {
            if i < u.len() {
                assert(w[i] == u[i]);
                let k = choose|k: int| 0 <= k < d.len() && d[k] == u[i];
                assert(v[k] == w[i]);
            } else {
                assert(v[v.len() - 1] == w[i]);
            }
        }
        assert forall|i: int, j: int| 0 <= i < j < w.len() implies !answers(
            #[trigger] w[j],
            (#[trigger] w[i]).gateway_id,
            w[i].request_id,
        ) && w[j].result_id != w[i].result_id by {
            assert(w[i] == u[i]);
            if j < u.len() {
                assert(w[j] == u[j]);
            } else {
                let k = choose|k: int| 0 <= k < d.len() && d[k] == u[i];
                assert(v[k] == w[i]);
                assert(!answers(v[v.len() - 1], v[k].gateway_id, v[k].request_id));
            }
        }
    }
}

/// Every trace after `n` responses was there before, or is of an expired one
/// among them.
proof fn lemma_traces_after(s: RelayView, now_ms: u64, protected: Option<Seq<char>>, n: int)
    requires
        sound_ledger(s),
        0 <= n <= s.outbound_results.len(),
    ensures
        ({
            let v = s.outbound_results;
            let u = traces_after(s.retired_outbound_results, v, now_ms, protected, n);
            &&& fine_traces(u, s.next_outbound_result_id)
            &&& forall|j: int|
                0 <= j < u.len() ==> s.retired_outbound_results.contains(#[trigger] u[j])
                    || exists|k: int|
                    0 <= k < n && expired(v[k], now_ms, protected) && trace_of(#[trigger] v[k])
                        == u[j]
        }),
    decreases n,
{
    let v = s.outbound_results;
    let t = s.retired_outbound_results;
    let u = traces_after(t, v, now_ms, protected, n);
    if n > 0 {
        lemma_traces_after(s, now_ms, protected, n - 1);
        let b = traces_after(t, v, now_ms, protected, n - 1);
        if expired(v[n - 1], now_ms, protected) {
            let c = trace_of(v[n - 1]);
            assert(valid_result(
                v[n - 1],
                s.next_outbound_result_id,
                s.clock_high_water_ms,
                s.next_seq,
            ));
            assert forall|i: int| 0 <= i < b.len() implies (#[trigger] b[i]).result_id
                != c.result_id by {
                if t.contains(b[i]) {
                    let k = choose|k: int| 0 <= k < t.len() && t[k] == b[i];
                    assert(v[n - 1].result_id != t[k].result_id);
                } else {
                    let k = choose|k: int|
                        0 <= k < n - 1 && expired(v[k], now_ms, protected) && trace_of(
                            #[trigger] v[k],
                        ) == b[i];
                    assert(v[n - 1].result_id != v[k].result_id);
                }
            }
            lemma_traced(b, c, s.next_outbound_result_id);
            assert forall|j: int| 0 <= j < u.len() implies t.contains(#[trigger] u[j])
                || exists|k: int|
                0 <= k < n && expired(v[k], now_ms, protected) && trace_of(#[trigger] v[k])
                    == u[j] by {
                if u[j] == c {
                    assert(expired(v[n - 1], now_ms, protected) && trace_of(v[n - 1]) == u[j]);
                } else {
                    assert(b.contains(u[j]));
                    let m = choose|m: int| 0 <= m < b.len() && b[m] == u[j];
                    if !t.contains(b[m]) {
                        let k = choose|k: int|
                            0 <= k < n - 1 && expired(v[k], now_ms, protected) && trace_of(
                                #[trigger] v[k],
                            ) == b[m];
                        assert(trace_of(v[k]) == u[j]);
                    }
                }
            }
        } else {
            assert forall|j: int| 0 <= j < u.len() implies t.contains(#[trigger] u[j])
                || exists|k: int|
                0 <= k < n && expired(v[k], now_ms, protected) && trace_of(#[trigger] v[k])
                    == u[j] by {
                if !t.contains(u[j]) {
                    let k = choose|k: int|
                        0 <= k < n - 1 && expired(v[k], now_ms, protected) && trace_of(
                            #[trigger] v[k],
                        ) == u[j];
                    assert(trace_of(v[k]) == u[j]);
                }
            }
        }
    } else {
        assert forall|j: int| 0 <= j < u.len() implies t.contains(#[trigger] u[j]) by {
            assert(t[j] == u[j]);
        }
    }
}

/// Giving up old responses leaves the ledger sound, never fails in a sound
/// ledger, and leaves the deliveries and the protected gateway's responses
/// alone.
pub proof fn law_reclaiming_keeps_ledger_sound(
    s: RelayView,
    now_ms: u64,
    protected: Option<Seq<char>>,
)
    requires
        sound_ledger(s),
    ensures
        sound_ledger(reclaimed(s, now_ms, protected)),
        reclaimable(s.outbound_results, now_ms, protected),
        reclaimed(s, now_ms, protected).deliveries == s.deliveries,
        forall|i: int|
            0 <= i < s.outbound_results.len() && protected == Some(
                (#[trigger] s.outbound_results[i]).gateway_id,
            ) ==> !expired(s.outbound_results[i], now_ms, protected),
{
    let v = s.outbound_results;
    let p = unexpired(now_ms, protected);
    let w = v.filter(p);
    let u = traces_after(s.retired_outbound_results, v, now_ms, protected, v.len() as int);
    assert forall|i: int| 0 <= i < v.len() && expired(#[trigger] v[i], now_ms, protected) implies
        trace_fits(trace_of(v[i])) by {
        assert(valid_result(v[i], s.next_outbound_result_id, s.clock_high_water_ms, s.next_seq));
        lemma_valid_trace_fits(trace_of(v[i]), s.next_outbound_result_id);
    }
    lemma_filter_results(v, p);
    lemma_traces_after(s, now_ms, protected, v.len() as int);
    let f = |r: OutboundResultView| result_json(r);
    lemma_filter_bytes(v, p, f);
    assert(result_jsons(v) =~= v.map_values(f));
    assert(result_jsons(w) =~= w.map_values(f));
    assert forall|i: int| 0 <= i < w.len() implies valid_result(
        #[trigger] w[i],
        s.next_outbound_result_id,
        s.clock_high_water_ms,
        s.next_seq,
    ) by {
        let k = choose|k: int| 0 <= k < v.len() && v[k] == w[i];
        assert(valid_result(v[k], s.next_outbound_result_id, s.clock_high_water_ms, s.next_seq));
    }
    assert forall|i: int, j: int| 0 <= i < w.len() && 0 <= j < u.len() implies (
    #[trigger] w[i]).result_id != (#[trigger] u[j]).result_id by {
        assert(p(w[i]));
        let a = choose|a: int| 0 <= a < v.len() && v[a] == w[i];
        if s.retired_outbound_results.contains(u[j]) {
            let t = s.retired_outbound_results;
            let b = choose|b: int| 0 <= b < t.len() && t[b] == u[j];
            assert(v[a].result_id != t[b].result_id);
        } else {
            let k = choose|k: int|
                0 <= k < v.len() && expired(v[k], now_ms, protected) && trace_of(#[trigger] v[k])
                    == u[j];
            assert(a != k);
            if a < k {
                assert(v[k].result_id != v[a].result_id);
            } else {
                assert(v[a].result_id != v[k].result_id);
            }
        }
    }
}

} // verus!
