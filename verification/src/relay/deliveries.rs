//! The queue of replies for the handset, and the requests that await them.
use vstd::prelude::*;

use crate::clock::epoch_ms;
use crate::json::{array_bytes, array_would_exceed};
use crate::proto::{
    is_valid_lane_id, is_valid_opaque_id, valid_lane_id, valid_opaque_id, MAX_SAFE_SEQUENCE,
};
use crate::relay::errors::RelayError;
use crate::relay::records::{
    delivery_json, delivery_jsons, delivery_text, delivery_texts, delivery_views, Delivery,
    DeliveryView, PendingRequest, PendingRequestView,
};
use crate::relay::state::{
    RelayState, RelayView, MAX_DELIVERY_CONTENT_BYTES, MAX_PENDING_DELIVERIES,
    MAX_PENDING_DELIVERY_BYTES, MAX_PENDING_REQUESTS,
};
use crate::text::{byte_len, opt_str_view, own_opt, same_opt_text, same_text, utf8_len};

verus! {

// ---- what a delivery may be -----------------------------------------------------

/// A reply names nothing, or an opaque identifier.
pub open spec fn valid_reply_to(reply_to: Option<Seq<char>>) -> bool {
    reply_to is Some ==> valid_opaque_id(reply_to->0)
}

/// Checks what a reply names.
pub fn validate_reply_to(reply_to: Option<&str>) -> (r: Result<(), RelayError>)
    ensures
        r == (if valid_reply_to(opt_str_view(reply_to)) {
            Ok::<(), RelayError>(())
        } else {
            Err(RelayError::ReplyToBlank)
        }),
{
    match reply_to {
        Some(id) => if is_valid_opaque_id(id) {
            Ok(())
        } else {
            Err(RelayError::ReplyToBlank)
        },
        None => Ok(()),
    }
}

/// Checks the length of a content.
pub fn validate_delivery_content(content: &str) -> (r: Result<(), RelayError>)
    ensures
        r == (if utf8_len(content@) <= MAX_DELIVERY_CONTENT_BYTES {
            Ok::<(), RelayError>(())
        } else {
            Err(RelayError::ContentTooLarge)
        }),
{
    if byte_len(content) > MAX_DELIVERY_CONTENT_BYTES {
        Err(RelayError::ContentTooLarge)
    } else {
        Ok(())
    }
}

/// The delivery that is queued next.
pub open spec fn next_delivery(
    s: RelayView,
    chat_id: Seq<char>,
    content: Seq<char>,
    reply_to: Option<Seq<char>>,
    arrived_at: u64,
) -> DeliveryView {
    DeliveryView { seq: (s.next_seq + 1) as u64, chat_id, content, reply_to, arrived_at }
}

/// Whether one more delivery takes the queue over its limit in bytes.
pub open spec fn queue_overflows(deliveries: Seq<DeliveryView>, next: DeliveryView) -> bool {
    array_bytes(delivery_jsons(deliveries).push(delivery_json(next))) > MAX_PENDING_DELIVERY_BYTES
}

/// Why a delivery is not queued.
pub open spec fn enqueue_refusal(
    s: RelayView,
    chat_id: Seq<char>,
    content: Seq<char>,
    reply_to: Option<Seq<char>>,
    arrived_at: u64,
) -> Option<RelayError> {
    if !valid_lane_id(chat_id) {
        Some(RelayError::LaneGrammar)
    } else if utf8_len(content) > MAX_DELIVERY_CONTENT_BYTES {
        Some(RelayError::ContentTooLarge)
    } else if !valid_reply_to(reply_to) {
        Some(RelayError::ReplyToBlank)
    } else if s.persistence_failure is Some {
        Some(RelayError::Unavailable)
    } else if s.deliveries.len() >= MAX_PENDING_DELIVERIES {
        Some(RelayError::QueueFull)
    } else if s.next_seq >= MAX_SAFE_SEQUENCE {
        Some(RelayError::SequenceExhausted)
    } else if queue_overflows(
        s.deliveries,
        next_delivery(s, chat_id, content, reply_to, arrived_at),
    ) {
        Some(RelayError::QueueByteLimit)
    } else {
        None
    }
}

/// The state with one more delivery.
pub open spec fn enqueued(s: RelayView, d: DeliveryView) -> RelayView {
    RelayView { deliveries: s.deliveries.push(d), next_seq: d.seq, ..s }
}

/// What queuing a delivery does and returns.
pub open spec fn queued(
    before: RelayView,
    after: RelayView,
    chat_id: Seq<char>,
    content: Seq<char>,
    reply_to: Option<Seq<char>>,
    arrived_at: u64,
    r: Result<u64, RelayError>,
) -> bool {
    let refusal = enqueue_refusal(before, chat_id, content, reply_to, arrived_at);
    let d = next_delivery(before, chat_id, content, reply_to, arrived_at);
    match r {
        Ok(seq) => refusal is None && seq == d.seq && after == enqueued(before, d),
        Err(e) => refusal == Some(e) && after == before,
    }
}

/// What queuing a gateway's reply does and returns.
pub open spec fn gateway_queued(
    before: RelayView,
    after: RelayView,
    chat_id: Seq<char>,
    content: Seq<char>,
    reply_to: Option<Seq<char>>,
    arrived_at: u64,
    r: Result<u64, RelayError>,
) -> bool {
    let refusal = if valid_reply_to(reply_to) {
        enqueue_refusal(before, chat_id, content, reply_to, arrived_at)
    } else {
        Some(RelayError::ReplyToBlank)
    };
    let d = next_delivery(before, chat_id, content, reply_to, arrived_at);
    match r {
        Ok(seq) => {
            &&& refusal is None
            &&& seq == d.seq
            &&& after == (RelayView {
                pending_requests: answered_by(before.pending_requests, chat_id, reply_to),
                ..enqueued(before, d)
            })
        },
        Err(e) => refusal == Some(e) && after == before,
    }
}

/// Whether one more delivery takes the queue over its limit in bytes.
pub fn would_exceed_pending_delivery_bytes(deliveries: &Vec<Delivery>, candidate: &Delivery) -> (r:
    bool)
    ensures
        r == queue_overflows(delivery_views(deliveries@), candidate@),
{
    let texts = delivery_texts(deliveries);
    let text = delivery_text(candidate);
    array_would_exceed(&texts, text.as_str(), MAX_PENDING_DELIVERY_BYTES)
}

// ---- requests -------------------------------------------------------------------

/// The newest requests, as many as are kept.
pub open spec fn latest_requests(v: Seq<PendingRequestView>) -> Seq<PendingRequestView> {
    if v.len() > MAX_PENDING_REQUESTS {
        v.skip(v.len() - MAX_PENDING_REQUESTS)
    } else {
        v
    }
}

/// Index of the oldest request for this message, the number of requests where
/// there is none.
pub open spec fn request_position(
    v: Seq<PendingRequestView>,
    lane_id: Seq<char>,
    message_id: Seq<char>,
    i: int,
) -> int
    decreases v.len() - i,
{
    if i < 0 || i >= v.len() {
        v.len() as int
    } else if v[i].lane_id == lane_id && v[i].message_id == message_id {
        i
    } else {
        request_position(v, lane_id, message_id, i + 1)
    }
}

/// The requests without the oldest one for this message.
pub open spec fn answered(
    v: Seq<PendingRequestView>,
    lane_id: Seq<char>,
    message_id: Seq<char>,
) -> Seq<PendingRequestView> {
    let p = request_position(v, lane_id, message_id, 0);
    if p < v.len() {
        v.remove(p)
    } else {
        v
    }
}

/// The requests after a reply that names a message, or none.
pub open spec fn answered_by(
    v: Seq<PendingRequestView>,
    lane_id: Seq<char>,
    reply_to: Option<Seq<char>>,
) -> Seq<PendingRequestView> {
    match reply_to {
        Some(message_id) => answered(v, lane_id, message_id),
        None => v,
    }
}

// ---- reading and consuming ------------------------------------------------------

/// Which deliveries a reader asks for: newer than `after`, of the lane, of the
/// request and up to `through` where these are given.
pub open spec fn asked_for(
    d: DeliveryView,
    after: u64,
    lane_id: Option<Seq<char>>,
    reply_to: Option<Seq<char>>,
    through: Option<u64>,
) -> bool {
    &&& d.seq > after
    &&& (lane_id is Some ==> d.chat_id == lane_id->0)
    &&& (reply_to is Some ==> d.reply_to == reply_to)
    &&& (through is Some ==> d.seq <= through->0)
}

/// Selects what a reader asks for.
pub open spec fn picked(
    after: u64,
    lane_id: Option<Seq<char>>,
    reply_to: Option<Seq<char>>,
    through: Option<u64>,
) -> spec_fn(DeliveryView) -> bool {
    |d: DeliveryView| asked_for(d, after, lane_id, reply_to, through)
}

/// Selects what a reader does not ask for.
pub open spec fn left(
    after: u64,
    lane_id: Option<Seq<char>>,
    reply_to: Option<Seq<char>>,
    through: Option<u64>,
) -> spec_fn(DeliveryView) -> bool {
    |d: DeliveryView| !asked_for(d, after, lane_id, reply_to, through)
}

/// Selects the deliveries of a lane.
pub open spec fn of_lane(lane_id: Seq<char>) -> spec_fn(DeliveryView) -> bool {
    |d: DeliveryView| d.chat_id == lane_id
}

/// Selects what was not spoken on a lane.
pub open spec fn unspoken(lane_id: Seq<char>, sequences: Seq<u64>) -> spec_fn(DeliveryView) -> bool {
    |d: DeliveryView| !(d.chat_id == lane_id && sequences.contains(d.seq))
}

/// Why a read is refused.
pub open spec fn read_refusal(
    s: RelayView,
    after: u64,
    reply_to: Option<Seq<char>>,
    through: Option<u64>,
) -> Option<RelayError> {
    if after > MAX_SAFE_SEQUENCE {
        Some(RelayError::AfterBoundary)
    } else if !valid_reply_to(reply_to) {
        Some(RelayError::ReplyToBlank)
    } else if through is Some && through->0 > MAX_SAFE_SEQUENCE {
        Some(RelayError::ThroughBoundary)
    } else if s.persistence_failure is Some {
        Some(RelayError::Unavailable)
    } else {
        None
    }
}

/// Where the queue ends: the newest waiting sequence, the reader's own cursor
/// where nothing waits.
pub open spec fn latest_seq(s: RelayView, after: u64) -> u64 {
    if s.deliveries.len() > 0 {
        s.deliveries.last().seq
    } else {
        after
    }
}

/// What is wrong with a sequence, seen after those before it.
pub open spec fn sequence_fault(sequences: Seq<u64>, i: int) -> Option<RelayError> {
    if sequences[i] > MAX_SAFE_SEQUENCE {
        Some(RelayError::SequenceBoundary)
    } else if sequences[i] == 0 {
        Some(RelayError::ZeroSequence)
    } else if sequences.take(i).contains(sequences[i]) {
        Some(RelayError::DuplicateSequence)
    } else {
        None
    }
}

/// What is wrong with the first faulty sequence from `i` on.
pub open spec fn first_sequence_fault(sequences: Seq<u64>, i: int) -> Option<RelayError>
    decreases sequences.len() - i,
{
    if i < 0 || i >= sequences.len() {
        None
    } else if sequence_fault(sequences, i) is Some {
        sequence_fault(sequences, i)
    } else {
        first_sequence_fault(sequences, i + 1)
    }
}

/// Why spoken sequences are not consumed.
pub open spec fn consume_refusal(s: RelayView, sequences: Seq<u64>) -> Option<RelayError> {
    if sequences.len() == 0 {
        Some(RelayError::NoSequence)
    } else if sequences.len() > MAX_PENDING_DELIVERIES {
        Some(RelayError::TooManySequences)
    } else if first_sequence_fault(sequences, 0) is Some {
        first_sequence_fault(sequences, 0)
    } else if s.persistence_failure is Some {
        Some(RelayError::Unavailable)
    } else {
        None
    }
}

proof fn lemma_filter_step<A>(s: Seq<A>, p: spec_fn(A) -> bool, i: int)
    requires
        0 <= i < s.len(),
    ensures
        s.take(i + 1).filter(p) == (if p(s[i]) {
            s.take(i).filter(p).push(s[i])
        } else {
            s.take(i).filter(p)
        }),
{
    reveal(Seq::filter);
    assert(s.take(i + 1).drop_last() =~= s.take(i));
}

impl RelayState {
    fn enqueue_delivery(
        &mut self,
        chat_id: &str,
        content: &str,
        reply_to: Option<&str>,
        arrived_at: u64,
    ) -> (r: Result<u64, RelayError>)
        ensures
            queued(
                old(self)@,
                final(self)@,
                chat_id@,
                content@,
                opt_str_view(reply_to),
                arrived_at,
                r,
            ),
    {
        if !is_valid_lane_id(chat_id) {
            return Err(RelayError::LaneGrammar);
        }
        match validate_delivery_content(content) {
            Err(e) => {
                return Err(e);
            },
            Ok(_) => {},
        }
        match validate_reply_to(reply_to) {
            Err(e) => {
                return Err(e);
            },
            Ok(_) => {},
        }
        match self.ensure_persistence_healthy() {
            Err(e) => {
                return Err(e);
            },
            Ok(_) => {},
        }
        if self.deliveries.len() >= MAX_PENDING_DELIVERIES {
            return Err(RelayError::QueueFull);
        }
        if self.next_seq >= MAX_SAFE_SEQUENCE {
            return Err(RelayError::SequenceExhausted);
        }
        let n: u64 = self.next_seq + 1;
        let candidate = Delivery {
            seq: n,
            chat_id: chat_id.to_string(),
            content: content.to_string(),
            reply_to: own_opt(reply_to),
            arrived_at,
        };
        assert(candidate@ == next_delivery(
            self@,
            chat_id@,
            content@,
            opt_str_view(reply_to),
            arrived_at,
        ));
        if would_exceed_pending_delivery_bytes(&self.deliveries, &candidate) {
            return Err(RelayError::QueueByteLimit);
        }
        let ghost d = candidate@;
        self.deliveries.push(candidate);
        self.next_seq = n;
        assert(self@ =~= enqueued(old(self)@, d));
        Ok(n)
    }

    /// Queues a reply that arrived at `arrived_at` and answers no request.
    pub fn queue_delivery_at(&mut self, chat_id: &str, content: &str, arrived_at: u64) -> (r: Result<
        u64,
        RelayError,
    >)
        ensures
            queued(old(self)@, final(self)@, chat_id@, content@, None, arrived_at, r),
    {
        self.enqueue_delivery(chat_id, content, None, arrived_at)
    }

    /// Queues a reply that arrives now and answers no request.
    pub fn queue_delivery(&mut self, chat_id: &str, content: &str) -> (r: Result<u64, RelayError>)
        ensures
            exists|at: u64|
                #[trigger] queued(old(self)@, final(self)@, chat_id@, content@, None, at, r),
    {
        let at: u64 = crate::clock::clock_ms(epoch_ms() / 1000);
        self.queue_delivery_at(chat_id, content, at)
    }

    /// Forgets the oldest request for this message, since it was answered.
    pub fn take_specific_request(&mut self, lane_id: &str, message_id: &str) -> (r: Option<String>)
        ensures
            final(self)@ == (RelayView {
                pending_requests: answered(old(self)@.pending_requests, lane_id@, message_id@),
                ..old(self)@
            }),
            match r {
                Some(id) => id@ == message_id@ && request_position(
                    old(self)@.pending_requests,
                    lane_id@,
                    message_id@,
                    0,
                ) < old(self)@.pending_requests.len(),
                None => request_position(old(self)@.pending_requests, lane_id@, message_id@, 0)
                    == old(self)@.pending_requests.len(),
            },
    {
        let ghost v = self@.pending_requests;
        let mut i: usize = 0;
        while i < self.pending_requests.len()
            invariant
                v == self@.pending_requests,
                self@ == old(self)@,
                i <= v.len(),
                request_position(v, lane_id@, message_id@, 0) == request_position(
                    v,
                    lane_id@,
                    message_id@,
                    i as int,
                ),
            decreases v.len() - i,
        {
            assert(v[i as int] == self.pending_requests@[i as int]@);
            if same_text(self.pending_requests[i].lane_id.as_str(), lane_id) && same_text(
                self.pending_requests[i].message_id.as_str(),
                message_id,
            ) {
                let removed = self.pending_requests.remove(i);
                assert(self@.pending_requests =~= v.remove(i as int));
                assert(self@ =~= (RelayView {
                    pending_requests: v.remove(i as int),
                    ..old(self)@
                }));
                return Some(removed.message_id);
            }
            i = i + 1;
        }
        None
    }

    /// Queues a gateway's reply that arrived at `arrived_at`. The request it
    /// names is answered; one that names none answers none.
    pub fn queue_gateway_delivery_at(
        &mut self,
        chat_id: &str,
        content: &str,
        explicit_reply_to: Option<&str>,
        arrived_at: u64,
    ) -> (r: Result<u64, RelayError>)
        ensures
            gateway_queued(
                old(self)@,
                final(self)@,
                chat_id@,
                content@,
                opt_str_view(explicit_reply_to),
                arrived_at,
                r,
            ),
    {
        match validate_reply_to(explicit_reply_to) {
            Err(e) => {
                return Err(e);
            },
            Ok(_) => {},
        }
        match self.enqueue_delivery(chat_id, content, explicit_reply_to, arrived_at) {
            Err(e) => Err(e),
            Ok(seq) => {
                match explicit_reply_to {
                    Some(message_id) => {
                        let _ = self.take_specific_request(chat_id, message_id);
                    },
                    None => {},
                }
                Ok(seq)
            },
        }
    }

    /// Queues a gateway's reply that arrives now.
    pub fn queue_gateway_delivery(
        &mut self,
        chat_id: &str,
        content: &str,
        explicit_reply_to: Option<&str>,
    ) -> (r: Result<u64, RelayError>)
        ensures
            exists|at: u64|
                #[trigger] gateway_queued(
                    old(self)@,
                    final(self)@,
                    chat_id@,
                    content@,
                    opt_str_view(explicit_reply_to),
                    at,
                    r,
                ),
    {
        let at: u64 = crate::clock::clock_ms(epoch_ms() / 1000);
        self.queue_gateway_delivery_at(chat_id, content, explicit_reply_to, at)
    }

    /// Awaits the reply to a message. The oldest requests give way.
    pub fn register_request(&mut self, lane_id: &str, message_id: &str) -> (r: Result<
        (),
        RelayError,
    >)
        ensures
            r == (if !valid_lane_id(lane_id@) {
                Err::<(), RelayError>(RelayError::RequestLane)
            } else if !valid_opaque_id(message_id@) {
                Err(RelayError::RequestMessage)
            } else {
                Ok(())
            }),
            final(self)@ == (if r is Ok {
                RelayView {
                    pending_requests: latest_requests(
                        old(self)@.pending_requests.push(
                            PendingRequestView { lane_id: lane_id@, message_id: message_id@ },
                        ),
                    ),
                    ..old(self)@
                }
            } else {
                old(self)@
            }),
    {
        if !is_valid_lane_id(lane_id) {
            return Err(RelayError::RequestLane);
        }
        if !is_valid_opaque_id(message_id) {
            return Err(RelayError::RequestMessage);
        }
        self.pending_requests.push(
            PendingRequest { lane_id: lane_id.to_string(), message_id: message_id.to_string() },
        );
        let ghost all = old(self)@.pending_requests.push(
            PendingRequestView { lane_id: lane_id@, message_id: message_id@ },
        );
        assert(self@.pending_requests =~= all);
        if self.pending_requests.len() > MAX_PENDING_REQUESTS {
            let excess: usize = self.pending_requests.len() - MAX_PENDING_REQUESTS;
            let ghost v = self.pending_requests@;
            let kept = self.pending_requests.split_off(excess);
            self.pending_requests = kept;
            assert(self@.pending_requests =~= all.skip(excess as int));
        }
        assert(self@ =~= (RelayView {
            pending_requests: latest_requests(all),
            ..old(self)@
        }));
        Ok(())
    }

    /// The deliveries that wait for a lane, oldest first.
    pub fn pending_for(&self, lane_id: &str) -> (r: Vec<Delivery>)
        ensures
            delivery_views(r@) == self@.deliveries.filter(of_lane(lane_id@)),
    {
        let mut out: Vec<Delivery> = Vec::new();
        let ghost all = self@.deliveries;
        let ghost p = of_lane(lane_id@);
        proof {
            reveal(Seq::filter);
            assert(delivery_views(out@) =~= all.take(0).filter(p));
        }
        for i in 0..self.deliveries.len()
            invariant
                all == self@.deliveries,
                p == of_lane(lane_id@),
                delivery_views(out@) == all.take(i as int).filter(p),
        {
            let d = &self.deliveries[i];
            proof {
                assert(d@ == all[i as int]);
                lemma_filter_step(all, p, i as int);
            }
            if same_text(d.chat_id.as_str(), lane_id) {
                let ghost before = out@;
                out.push(d.clone());
                assert(delivery_views(out@) =~= delivery_views(before).push(d@));
            }
        }
        assert(all.take(all.len() as int) =~= all);
        out
    }

    /// How many deliveries wait for a lane.
    pub fn pending_count(&self, lane_id: &str) -> (n: usize)
        ensures
            n == self@.deliveries.filter(of_lane(lane_id@)).len(),
    {
        let r = self.pending_for(lane_id);
        assert(delivery_views(r@).len() == r@.len());
        r.len()
    }

    /// The sequence of the newest delivery ever queued. A reply queued later
    /// has a greater one.
    pub fn delivery_head(&self) -> (r: Result<u64, RelayError>)
        ensures
            r == (if self@.persistence_failure is Some {
                Err::<u64, RelayError>(RelayError::Unavailable)
            } else if self@.next_seq > MAX_SAFE_SEQUENCE {
                Err(RelayError::LatestBoundary)
            } else {
                Ok(self@.next_seq)
            }),
    {
        match self.ensure_persistence_healthy() {
            Err(e) => {
                return Err(e);
            },
            Ok(_) => {},
        }
        if self.next_seq > MAX_SAFE_SEQUENCE {
            return Err(RelayError::LatestBoundary);
        }
        Ok(self.next_seq)
    }

    /// Removes exactly the deliveries of a lane that were spoken, and says how
    /// many they were.
    pub fn consume_lane_sequences(&mut self, lane_id: &str, sequences: &[u64]) -> (r: Result<
        usize,
        RelayError,
    >)
        ensures
            match r {
                Ok(n) => {
                    &&& consume_refusal(old(self)@, sequences@) is None
                    &&& final(self)@ == (RelayView {
                        deliveries: old(self)@.deliveries.filter(unspoken(lane_id@, sequences@)),
                        ..old(self)@
                    })
                    &&& n == old(self)@.deliveries.len() - final(self)@.deliveries.len()
                },
                Err(e) => consume_refusal(old(self)@, sequences@) == Some(e) && final(self)@ == old(
                    self,
                )@,
            },
    {
        if sequences.len() == 0 {
            return Err(RelayError::NoSequence);
        }
        if sequences.len() > MAX_PENDING_DELIVERIES {
            return Err(RelayError::TooManySequences);
        }
        for i in 0..sequences.len()
            invariant
                self@ == old(self)@,
                0 < sequences@.len() <= MAX_PENDING_DELIVERIES,
                first_sequence_fault(sequences@, 0) == first_sequence_fault(sequences@, i as int),
        {
            let sequence: u64 = sequences[i];
            if sequence > MAX_SAFE_SEQUENCE {
                return Err(RelayError::SequenceBoundary);
            }
            if sequence == 0 {
                return Err(RelayError::ZeroSequence);
            }
            let mut j: usize = 0;
            while j < i
                invariant
                    self@ == old(self)@,
                    i < sequences@.len(),
                    0 < sequences@.len() <= MAX_PENDING_DELIVERIES,
                    sequence == sequences@[i as int],
                    0 < sequence <= MAX_SAFE_SEQUENCE,
                    first_sequence_fault(sequences@, 0) == first_sequence_fault(
                        sequences@,
                        i as int,
                    ),
                    j <= i,
                    forall|k: int| 0 <= k < j ==> #[trigger] sequences@[k] != sequence,
                decreases i - j,
            {
                if sequences[j] == sequence {
                    assert(sequences@.take(i as int)[j as int] == sequence);
                    return Err(RelayError::DuplicateSequence);
                }
                j = j + 1;
            }
            assert(!sequences@.take(i as int).contains(sequence)) by {
                if sequences@.take(i as int).contains(sequence) {
                    let k = choose|k: int|
                        0 <= k < sequences@.take(i as int).len() && sequences@.take(i as int)[k]
                            == sequence;
                    assert(sequences@[k] == sequence);
                }
            }
        }
        match self.ensure_persistence_healthy() {
            Err(e) => {
                return Err(e);
            },
            Ok(_) => {},
        }
        let mut kept: Vec<Delivery> = Vec::new();
        let ghost all = self@.deliveries;
        let ghost p = unspoken(lane_id@, sequences@);
        proof {
            reveal(Seq::filter);
            assert(delivery_views(kept@) =~= all.take(0).filter(p));
        }
        for i in 0..self.deliveries.len()
            invariant
                self@ == old(self)@,
                all == self@.deliveries,
                p == unspoken(lane_id@, sequences@),
                delivery_views(kept@) == all.take(i as int).filter(p),
                kept@.len() <= i,
        {
            let d = &self.deliveries[i];
            proof {
                assert(d@ == all[i as int]);
                lemma_filter_step(all, p, i as int);
            }
            let mut spoken = false;
            if same_text(d.chat_id.as_str(), lane_id) {
                let mut j: usize = 0;
                while j < sequences.len() && !spoken
                    invariant
                        j <= sequences@.len(),
                        spoken ==> sequences@.contains(d.seq),
                        !spoken ==> forall|k: int| 0 <= k < j ==> #[trigger] sequences@[k] != d.seq,
                    decreases sequences@.len() - j,
                {
                    if sequences[j] == d.seq {
                        assert(sequences@[j as int] == d.seq);
                        spoken = true;
                    }
                    j = j + 1;
                }
                assert(spoken == sequences@.contains(d.seq));
            }
            if !spoken {
                let ghost before = kept@;
                kept.push(d.clone());
                assert(delivery_views(kept@) =~= delivery_views(before).push(d@));
            }
        }
        assert(all.take(all.len() as int) =~= all);
        let n: usize = self.deliveries.len() - kept.len();
        self.deliveries = kept;
        assert(self@ =~= (RelayView { deliveries: all.filter(p), ..old(self)@ }));
        Ok(n)
    }

    /// The deliveries that a reader asks for, oldest first, and where the queue
    /// ends. With `consume` they are removed: the reader answers for them.
    pub fn deliveries_after(
        &mut self,
        after: u64,
        consume: bool,
        lane_id: Option<&str>,
        reply_to: Option<&str>,
        through_seq: Option<u64>,
    ) -> (r: Result<(Vec<Delivery>, u64), RelayError>)
        ensures
            match r {
                Ok((items, latest)) => {
                    let lane = opt_str_view(lane_id);
                    let reply = opt_str_view(reply_to);
                    &&& read_refusal(old(self)@, after, reply, through_seq) is None
                    &&& delivery_views(items@) == old(self)@.deliveries.filter(
                        picked(after, lane, reply, through_seq),
                    )
                    &&& latest == latest_seq(old(self)@, after)
                    &&& final(self)@ == (if consume {
                        RelayView {
                            deliveries: old(self)@.deliveries.filter(
                                left(after, lane, reply, through_seq),
                            ),
                            ..old(self)@
                        }
                    } else {
                        old(self)@
                    })
                },
                Err(e) => read_refusal(old(self)@, after, opt_str_view(reply_to), through_seq)
                    == Some(e) && final(self)@ == old(self)@,
            },
    {
        if after > MAX_SAFE_SEQUENCE {
            return Err(RelayError::AfterBoundary);
        }
        match validate_reply_to(reply_to) {
            Err(e) => {
                return Err(e);
            },
            Ok(_) => {},
        }
        match through_seq {
            Some(through) => {
                if through > MAX_SAFE_SEQUENCE {
                    return Err(RelayError::ThroughBoundary);
                }
            },
            None => {},
        }
        match self.ensure_persistence_healthy() {
            Err(e) => {
                return Err(e);
            },
            Ok(_) => {},
        }
        let ghost lane = opt_str_view(lane_id);
        let ghost reply = opt_str_view(reply_to);
        let ghost all = self@.deliveries;
        let ghost p = picked(after, lane, reply, through_seq);
        let ghost q = left(after, lane, reply, through_seq);
        let mut items: Vec<Delivery> = Vec::new();
        let mut rest: Vec<Delivery> = Vec::new();
        proof {
            reveal(Seq::filter);
            assert(delivery_views(items@) =~= all.take(0).filter(p));
            assert(delivery_views(rest@) =~= all.take(0).filter(q));
        }
        for i in 0..self.deliveries.len()
            invariant
                self@ == old(self)@,
                all == self@.deliveries,
                lane == opt_str_view(lane_id),
                reply == opt_str_view(reply_to),
                p == picked(after, lane, reply, through_seq),
                q == left(after, lane, reply, through_seq),
                delivery_views(items@) == all.take(i as int).filter(p),
                delivery_views(rest@) == all.take(i as int).filter(q),
        {
            let d = &self.deliveries[i];
            proof {
                assert(d@ == all[i as int]);
                lemma_filter_step(all, p, i as int);
                lemma_filter_step(all, q, i as int);
            }
            let in_lane = match lane_id {
                Some(id) => same_text(d.chat_id.as_str(), id),
                None => true,
            };
            let in_reply = match reply_to {
                Some(_) => same_opt_text(&d.reply_to, reply_to),
                None => true,
            };
            let in_range = match through_seq {
                Some(through) => d.seq <= through,
                None => true,
            };
            if d.seq > after && in_lane && in_reply && in_range {
                let ghost before = items@;
                items.push(d.clone());
                assert(delivery_views(items@) =~= delivery_views(before).push(d@));
            } else {
                let ghost before = rest@;
                rest.push(d.clone());
                assert(delivery_views(rest@) =~= delivery_views(before).push(d@));
            }
        }
        assert(all.take(all.len() as int) =~= all);
        let n: usize = self.deliveries.len();
        let latest: u64 = if n > 0 {
            self.deliveries[n - 1].seq
        } else {
            after
        };
        if consume {
            self.deliveries = rest;
            assert(self@ =~= (RelayView { deliveries: all.filter(q), ..old(self)@ }));
        }
        Ok((items, latest))
    }
}

} // verus!
