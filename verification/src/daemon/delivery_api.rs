//! Requests that change the relay: reading deliveries off the queue, consuming
//! spoken ones, and queueing a message. Each is answered only once the relay's
//! snapshot is written.
use vstd::prelude::*;

use crate::daemon::message_api::{
    are_spoken, check_delivery_query, consume_fault, consumed_answer, consumed_lane,
    consumed_response, message_answer, message_response, query_fault, read_answer,
    read_consume_request, read_response, DeliveryQuery, DeliveryQueryView, Outgoing,
};
use crate::daemon::responses::{plain, plain_response, Response, ResponseView};
use crate::lanes::{LaneRegistry, RegistryView};
use crate::relay::deliveries::{
    consume_refusal, latest_seq, left, picked, read_refusal, unspoken,
};
use crate::relay::inbound::{
    inbound_verdict, next_inbound, push_refusal, pushed, InboundVerdict,
};
use crate::relay::state::{
    durable, refusal_words, settled, Checkpoint, CheckpointView, RelayState, RelayView,
    WriteOutcome,
};
use crate::text::{opt_ref, opt_view};
use crate::value::{Json, JsonView};

verus! {

/// A request that waits for a snapshot of the relay.
pub struct RelaySave {
    pub before: Checkpoint,
    /// Whether the inbound snapshot is the one to write; the delivery snapshot
    /// is otherwise.
    pub inbound: bool,
    /// The status where the write fails.
    pub failed: u16,
    /// The answer where it succeeds.
    pub success: Response,
    /// What the gateway is sent where it succeeds.
    pub frame: Option<String>,
}

/// A waiting request as a value.
pub struct RelaySaveView {
    pub before: CheckpointView,
    pub inbound: bool,
    pub failed: u16,
    pub success: ResponseView,
    pub frame: Option<Seq<char>>,
}

impl View for RelaySave {
    type V = RelaySaveView;

    open spec fn view(&self) -> RelaySaveView {
        RelaySaveView {
            before: self.before@,
            inbound: self.inbound,
            failed: self.failed,
            success: self.success@,
            frame: opt_view(self.frame),
        }
    }
}

/// What comes next of a request: its answer, or a snapshot to write.
pub enum RelayProgress {
    Done(Response),
    Write(RelaySave),
}

/// What comes next, as a value.
pub enum RelayProgressView {
    Done(ResponseView),
    Write(RelaySaveView),
}

impl View for RelayProgress {
    type V = RelayProgressView;

    open spec fn view(&self) -> RelayProgressView {
        match self {
            RelayProgress::Done(r) => RelayProgressView::Done(r@),
            RelayProgress::Write(save) => RelayProgressView::Write(save@),
        }
    }
}

/// What comes of a read of deliveries. Only one that removes something has
/// anything to write.
pub open spec fn delivery_turn(reg: RegistryView, s: RelayView, q: DeliveryQueryView) -> (
    RelayView,
    RelayProgressView,
) {
    match (query_fault(reg, q), read_refusal(s, q.after, q.reply_to, q.through_seq)) {
        (Some(fault), _) => (s, RelayProgressView::Done(fault)),
        (None, Some(e)) => (s, RelayProgressView::Done(plain(500, refusal_words(s, e)))),
        (None, None) => {
            let items = s.deliveries.filter(picked(q.after, q.lane_id, q.reply_to, q.through_seq));
            let success = read_answer(items, latest_seq(s, q.after));
            let after = if q.consume {
                RelayView {
                    deliveries: s.deliveries.filter(
                        left(q.after, q.lane_id, q.reply_to, q.through_seq),
                    ),
                    ..s
                }
            } else {
                s
            };
            (
                after,
                if q.consume && items.len() > 0 {
                    RelayProgressView::Write(
                        RelaySaveView {
                            before: durable(s),
                            inbound: false,
                            failed: 500,
                            success,
                            frame: None,
                        },
                    )
                } else {
                    RelayProgressView::Done(success)
                },
            )
        },
    }
}

/// A read of deliveries.
pub fn get_delivery(reg: &LaneRegistry, relay: &mut RelayState, q: &DeliveryQuery) -> (r:
    RelayProgress)
    ensures
        (final(relay)@, r@) == delivery_turn(reg@, old(relay)@, q@),
{
    match check_delivery_query(reg, q) {
        Some(fault) => {
            return RelayProgress::Done(fault);
        },
        None => {},
    }
    let before = relay.checkpoint();
    match relay.deliveries_after(
        q.after,
        q.consume,
        opt_ref(&q.lane_id),
        opt_ref(&q.reply_to),
        q.through_seq,
    ) {
        Ok((items, latest)) => {
            let success = read_response(&items, latest);
            assert(crate::relay::records::delivery_views(items@).len() == items@.len());
            if q.consume && items.len() > 0 {
                RelayProgress::Write(
                    RelaySave { before, inbound: false, failed: 500, success, frame: None },
                )
            } else {
                RelayProgress::Done(success)
            }
        },
        Err(e) => {
            let words = relay.refusal_text(e);
            RelayProgress::Done(plain_response(500, words.as_str()))
        },
    }
}

/// The sequences that a request names.
pub open spec fn named_sequences(body: JsonView) -> Seq<u64> {
    match body.get("sequences"@) {
        Some(JsonView::List(v)) => Seq::new(v.len(), |i: int| v[i].natural()->0),
        _ => Seq::empty(),
    }
}

/// What comes of a request to consume spoken deliveries.
pub open spec fn consume_turn(reg: RegistryView, s: RelayView, body: JsonView) -> (
    RelayView,
    RelayProgressView,
) {
    let lane = consumed_lane(body);
    let spoken = named_sequences(body);
    match (consume_fault(reg, body), consume_refusal(s, spoken)) {
        (Some(fault), _) => (s, RelayProgressView::Done(fault)),
        (None, Some(e)) => (s, RelayProgressView::Done(plain(500, refusal_words(s, e)))),
        (None, None) => {
            let kept = s.deliveries.filter(unspoken(lane, spoken));
            (
                RelayView { deliveries: kept, ..s },
                RelayProgressView::Write(
                    RelaySaveView {
                        before: durable(s),
                        inbound: false,
                        failed: 500,
                        success: consumed_answer(lane, (s.deliveries.len() - kept.len()) as nat),
                        frame: None,
                    },
                ),
            )
        },
    }
}

/// A request to consume exactly the deliveries that were spoken.
pub fn consume_pending(reg: &LaneRegistry, relay: &mut RelayState, body: &Json) -> (r:
    RelayProgress)
    ensures
        (final(relay)@, r@) == consume_turn(reg@, old(relay)@, body@),
{
    let (lane_id, sequences) = match read_consume_request(reg, body) {
        Ok(x) => x,
        Err(fault) => {
            return RelayProgress::Done(fault);
        },
    };
    assert(sequences@ =~= named_sequences(body@)) by {
        let list = body@.get("sequences"@)->0->List_0;
        assert(are_spoken(sequences@, list));
        assert forall|i: int| 0 <= i < sequences@.len() implies #[trigger] sequences@[i]
            == named_sequences(body@)[i] by {
            assert(list[i].natural() == Some(sequences@[i]));
        }
    }
    let before = relay.checkpoint();
    match relay.consume_lane_sequences(lane_id.as_str(), sequences.as_slice()) {
        Ok(count) => {
            let success = consumed_response(lane_id.as_str(), count);
            RelayProgress::Write(
                RelaySave { before, inbound: false, failed: 500, success, frame: None },
            )
        },
        Err(e) => {
            let words = relay.refusal_text(e);
            RelayProgress::Done(plain_response(500, words.as_str()))
        },
    }
}

/// What comes of a message that has its number. Its reply is awaited on a lane,
/// or on none.
pub open spec fn push_turn(
    s: RelayView,
    lane_id: Option<Seq<char>>,
    event: JsonView,
    message_id: Seq<char>,
) -> (RelayView, RelayProgressView) {
    match push_refusal(s, event, lane_id) {
        Some(e) => (s, RelayProgressView::Done(message_answer(s, message_id, Some(e)))),
        None => {
            let id = event.field("message_id"@).text()->0;
            let success = message_answer(s, message_id, None);
            (
                pushed(s, event, lane_id),
                match inbound_verdict(s, id, event) {
                    InboundVerdict::Added => RelayProgressView::Write(
                        RelaySaveView {
                            before: durable(s),
                            inbound: true,
                            failed: 503,
                            success,
                            frame: Some(next_inbound(s, id, event).frame),
                        },
                    ),
                    _ => RelayProgressView::Done(success),
                },
            )
        },
    }
}

/// Queues a message for the connected gateway, whose reply may be awaited.
pub fn push_message(relay: &mut RelayState, m: &Outgoing, awaited: bool) -> (r: RelayProgress)
    ensures
        (final(relay)@, r@) == push_turn(
            old(relay)@,
            if awaited {
                Some(m.lane_id@)
            } else {
                None
            },
            m.event@,
            m.message_id@,
        ),
{
    let before = relay.checkpoint();
    let lane = if awaited {
        Some(m.lane_id.as_str())
    } else {
        None
    };
    match relay.push_inbound_inner(&m.event, lane) {
        Ok((turn, new)) => {
            let success = message_response(relay, m.message_id.as_str(), None);
            if new {
                RelayProgress::Write(
                    RelaySave {
                        before,
                        inbound: true,
                        failed: 503,
                        success,
                        frame: Some(turn.frame),
                    },
                )
            } else {
                RelayProgress::Done(success)
            }
        },
        Err(e) => RelayProgress::Done(message_response(relay, m.message_id.as_str(), Some(e))),
    }
}

/// The answer to a request once it is known how the write ended, and what the
/// gateway is sent: nothing, unless the write is certain.
pub open spec fn relay_answer(
    save: RelaySaveView,
    outcome: WriteOutcome,
    failure: Seq<char>,
) -> (ResponseView, Option<Seq<char>>) {
    if outcome == WriteOutcome::Committed {
        (save.success, save.frame)
    } else {
        (plain(save.failed, failure), None)
    }
}

/// Goes on with a request once it is known how the write ended: its answer, and
/// what the gateway is to be sent now.
pub fn commit_relay_change(
    relay: &mut RelayState,
    save: RelaySave,
    outcome: WriteOutcome,
    failure: &str,
) -> (r: (Response, Option<String>))
    ensures
        (r.0@, opt_view(r.1)) == relay_answer(save@, outcome, failure@),
        final(relay)@ == settled(old(relay)@, save@.before, outcome, failure@),
{
    if relay.settle(save.before, outcome, failure) {
        (save.success, save.frame)
    } else {
        (plain_response(save.failed, failure), None)
    }
}

/// A request whose snapshot was not written leaves the relay as it was, is not
/// answered with success, and sends the gateway nothing.
pub proof fn law_unwritten_request_changes_nothing(
    reg: RegistryView,
    s: RelayView,
    q: DeliveryQueryView,
    body: JsonView,
    lane_id: Option<Seq<char>>,
    event: JsonView,
    message_id: Seq<char>,
    failure: Seq<char>,
)
    requires
        s.persistence_failure is None,
    ensures
        match delivery_turn(reg, s, q) {
            (t, RelayProgressView::Write(save)) => settled(
                t,
                save.before,
                WriteOutcome::NotReplaced,
                failure,
            ) == s && relay_answer(save, WriteOutcome::NotReplaced, failure) == (
                plain(500, failure),
                None::<Seq<char>>,
            ),
            _ => true,
        },
        match consume_turn(reg, s, body) {
            (t, RelayProgressView::Write(save)) => settled(
                t,
                save.before,
                WriteOutcome::NotReplaced,
                failure,
            ) == s && relay_answer(save, WriteOutcome::NotReplaced, failure) == (
                plain(500, failure),
                None::<Seq<char>>,
            ),
            (t, RelayProgressView::Done(_)) => t == s,
        },
        match push_turn(s, lane_id, event, message_id) {
            (t, RelayProgressView::Write(save)) => settled(
                t,
                save.before,
                WriteOutcome::NotReplaced,
                failure,
            ) == s && relay_answer(save, WriteOutcome::NotReplaced, failure) == (
                plain(503, failure),
                None::<Seq<char>>,
            ),
            _ => true,
        },
{
}

} // verus!
