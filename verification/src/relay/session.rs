//! A gateway's socket: the handshake, the lines it sends, what is forwarded to
//! it, and the answers to its frames.
use vstd::prelude::*;
use vstd::string::*;

use crate::lanes::{has_lane, LaneRegistry, LaneView};
use crate::proto::valid_opaque_id;
use crate::relay::gateway::{
    first_turn, next_turn, valid_outbound_request_id, Progress, ProgressView,
};
use crate::relay::inbound::{identity_of, inbound_identity, waits};
use crate::relay::replies::{
    action_reply, descriptor_frame, descriptor_reply, refusal_reply, reply_gateway_action_result,
    reply_refusal,
};
use crate::relay::results::{durable_answer, live_position, ticked, GatewayActionResult};
use crate::relay::state::{
    active_gateway, is_active, owns, RelayState, RelayView, WriteOutcome, DEV_GATEWAY_ID,
    MAX_INBOUND_LINE_BYTES,
};
use crate::text::{
    blank, byte_len, chars_of, is_blank, opt_str_view, opt_view, same_text, text_of, trim, trimmed,
    utf8_len,
};
use crate::value::{json_read, read_json, Json, JsonView};

verus! {

// ---- lines ----------------------------------------------------------------------

/// Adds what the socket received to the text that waits for its end of line;
/// nothing is added beyond the limit on a line.
pub fn append_gateway_text(inbound: &mut String, text: &str) -> (r: bool)
    ensures
        r == (utf8_len(old(inbound)@) + utf8_len(text@) <= MAX_INBOUND_LINE_BYTES),
        final(inbound)@ == (if r {
            old(inbound)@ + text@
        } else {
            old(inbound)@
        }),
{
    let have: usize = byte_len(inbound.as_str());
    let more: usize = byte_len(text);
    if have > MAX_INBOUND_LINE_BYTES || more > MAX_INBOUND_LINE_BYTES - have {
        return false;
    }
    inbound.append(text);
    true
}

/// Position of the first end of line from `i` on, the length of the text where
/// there is none.
pub open spec fn line_end(s: Seq<char>, i: int) -> int
    decreases s.len() - i,
{
    if i < 0 || i >= s.len() {
        s.len() as int
    } else if s[i] == '\n' {
        i
    } else {
        line_end(s, i + 1)
    }
}

/// Takes the first whole line off the text, without the white space around it.
pub fn next_gateway_line(inbound: &mut String) -> (r: Option<String>)
    ensures
        ({
            let p = line_end(old(inbound)@, 0);
            match r {
                Some(line) => p < old(inbound)@.len() && line@ == trimmed(old(inbound)@.take(p))
                    && final(inbound)@ == old(inbound)@.skip(p + 1),
                None => p == old(inbound)@.len() && final(inbound)@ == old(inbound)@,
            }
        }),
{
    let v = chars_of(inbound.as_str());
    let mut i: usize = 0;
    while i < v.len() && v[i] != '\n'
        invariant
            v@ == inbound@,
            inbound@ == old(inbound)@,
            i <= v@.len(),
            line_end(v@, 0) == line_end(v@, i as int),
        decreases v@.len() - i,
    {
        i = i + 1;
    }
    if i == v.len() {
        return None;
    }
    let line = text_of(&v, 0, i);
    assert(line@ =~= v@.take(i as int));
    let rest = text_of(&v, i + 1, v.len());
    assert(rest@ =~= v@.skip(i + 1));
    *inbound = rest;
    Some(trim(line.as_str()).to_string())
}

/// The answer to the first line of a gateway: its hello is answered with the
/// descriptor, anything else ends the handshake.
pub fn handshake_reply(line: &str) -> (r: Option<String>)
    ensures
        opt_view(r) == (match json_read(line@) {
            Some(v) => if v.field("type"@).text() == Some("hello"@) {
                Some(descriptor_reply())
            } else {
                None
            },
            None => None,
        }),
{
    match read_json(line) {
        Some(v) => match v.text_field("type") {
            Some(kind) => if same_text(kind, "hello") {
                Some(descriptor_frame())
            } else {
                None
            },
            None => None,
        },
        None => None,
    }
}

// ---- forwarding -----------------------------------------------------------------

/// The identities of turns as values.
pub open spec fn sent_views(v: Seq<(String, u64)>) -> Seq<(Seq<char>, u64)> {
    Seq::new(v.len(), |i: int| (v[i].0@, v[i].1))
}

/// Whether a frame is to be written to the gateway: one with an identity only
/// while its turn waits, and once.
pub open spec fn to_forward(s: RelayView, frame: Seq<char>, sent: Seq<(Seq<char>, u64)>) -> bool {
    match identity_of(frame) {
        Some((id, generation)) => !sent.contains((id, generation)) && waits(
            s.inbound,
            id,
            generation,
        ),
        None => true,
    }
}

impl RelayState {
    /// Whether a frame is to be written to the gateway, when these turns have
    /// been written before.
    pub fn forwards(&self, frame: &str, sent: &Vec<(String, u64)>) -> (r: bool)
        ensures
            r == to_forward(self@, frame@, sent_views(sent@)),
    {
        match inbound_identity(frame) {
            Some((id, generation)) => {
                let ghost all = sent_views(sent@);
                for i in 0..sent.len()
                    invariant
                        all == sent_views(sent@),
                        identity_of(frame@) == Some((id@, generation)),
                        forall|k: int| 0 <= k < i ==> #[trigger] all[k] != (id@, generation),
                {
                    assert(all[i as int] == (sent@[i as int].0@, sent@[i as int].1));
                    if same_text(sent[i].0.as_str(), id.as_str()) && sent[i].1 == generation {
                        assert(all.contains((id@, generation)));
                        return false;
                    }
                }
                assert(!all.contains((id@, generation)));
                self.inbound_is_pending_identity(id.as_str(), generation)
            },
            None => true,
        }
    }
}

// ---- frames ---------------------------------------------------------------------

/// What a send to a lane is told before anything else is looked at: an earlier
/// answer to the same request, or that the lane is not known.
pub open spec fn lane_refusal(
    s: RelayView,
    frame: JsonView,
    gateway_id: Seq<char>,
    lanes: Option<Seq<LaneView>>,
    now_ms: u64,
) -> Option<Seq<char>> {
    let request_id = frame.field("requestId"@).text()->0;
    let chat_id = frame.field("action"@).field("chat_id"@).text();
    let t = ticked(s, now_ms);
    let p = live_position(
        t.outbound_results,
        gateway_id,
        request_id,
        t.clock_high_water_ms,
        active_gateway(t.connections),
        0,
    );
    if !is_send(frame) {
        None
    } else if p < t.outbound_results.len() {
        Some(action_reply(request_id, durable_answer(t.outbound_results[p])))
    } else if chat_id is None || blank(chat_id->0) {
        None
    } else if lanes is None {
        Some(refusal_reply(request_id, "lane registry is unavailable"@))
    } else if !has_lane(lanes->0, chat_id->0) {
        Some(refusal_reply(request_id, "unknown lane "@ + chat_id->0))
    } else {
        None
    }
}

/// Whether a frame is a send with a valid request.
pub open spec fn is_send(frame: JsonView) -> bool {
    &&& frame.field("type"@).text() == Some("outbound"@)
    &&& frame.field("action"@).field("op"@).text() == Some("send"@)
    &&& frame.field("requestId"@).text() is Some
    &&& valid_opaque_id(frame.field("requestId"@).text()->0)
}

fn names(text: Option<&str>, word: &str) -> (r: bool)
    ensures
        r == (opt_str_view(text) == Some(word@)),
{
    match text {
        Some(t) => same_text(t, word),
        None => false,
    }
}

/// The lanes of a registry that may be missing.
pub open spec fn lanes_of(registry: Option<&LaneRegistry>) -> Option<Seq<LaneView>> {
    match registry {
        Some(reg) => Some(reg@.lanes),
        None => None,
    }
}

impl RelayState {
    /// Refuses a send to a lane that the registry does not know, before the
    /// queue or the ledger is touched.
    pub fn reject_unknown_gateway_send_lane(
        &mut self,
        frame: &Json,
        gateway_id: &str,
        registry: Option<&LaneRegistry>,
        now_ms: u64,
    ) -> (r: Option<String>)
        ensures
            opt_view(r) == lane_refusal(
                old(self)@,
                frame@,
                gateway_id@,
                lanes_of(registry),
                now_ms,
            ),
            final(self)@ == (if is_send(frame@) {
                ticked(old(self)@, now_ms)
            } else {
                old(self)@
            }),
    {
        if !names(frame.text_field("type"), "outbound") || !names(
            frame.text_field_in("action", "op"),
            "send",
        ) {
            return None;
        }
        let request_id = match valid_outbound_request_id(frame) {
            Some(id) => id,
            None => {
                return None;
            },
        };
        match self.live_outbound_result_for_request(gateway_id, request_id, now_ms) {
            Some(record) => {
                let answer = GatewayActionResult::durable(&record);
                return Some(reply_gateway_action_result(request_id, &answer));
            },
            None => {},
        }
        let chat_id = match frame.text_field_in("action", "chat_id") {
            Some(id) => id,
            None => {
                return None;
            },
        };
        if is_blank(chat_id) {
            return None;
        }
        match registry {
            None => Some(reply_refusal(request_id, "lane registry is unavailable")),
            Some(reg) => if reg.knows(chat_id) {
                None
            } else {
                let mut words = "unknown lane ".to_string();
                words.append(chat_id);
                Some(reply_refusal(request_id, words.as_str()))
            },
        }
    }
}

/// What comes of a frame that came over a connection. A socket that is not in
/// charge is not heard, and what is no JSON is dropped.
pub open spec fn connection_turn(
    s: RelayView,
    connection_id: u64,
    gateway_id: Seq<char>,
    frame: Option<JsonView>,
    lanes: Option<Seq<LaneView>>,
    now_ms: u64,
    arrived_at: u64,
) -> (RelayView, ProgressView) {
    if !owns(s.connections, connection_id, gateway_id) || !is_active(s.connections, connection_id)
        || frame is None {
        (s, ProgressView::Done(None))
    } else {
        let v = frame->0;
        let t = if is_send(v) {
            ticked(s, now_ms)
        } else {
            s
        };
        match lane_refusal(s, v, gateway_id, lanes, now_ms) {
            Some(reply) => (t, ProgressView::Done(Some(reply))),
            None => first_turn(t, v, Some(connection_id), gateway_id, now_ms, arrived_at),
        }
    }
}

/// The end of a frame whose snapshots are all written.
pub open spec fn finished(p: (RelayView, ProgressView)) -> (RelayView, Option<Seq<char>>) {
    match p.1 {
        ProgressView::Done(r) => (p.0, r),
        ProgressView::Write(t) => {
            let q = next_turn(p.0, t, WriteOutcome::Committed, ""@);
            match q.1 {
                ProgressView::Done(r) => (q.0, r),
                ProgressView::Write(u) => {
                    let z = next_turn(q.0, u, WriteOutcome::Committed, ""@);
                    match z.1 {
                        ProgressView::Done(r) => (z.0, r),
                        ProgressView::Write(_) => (z.0, None),
                    }
                },
            }
        },
    }
}

/// No frame takes more than two snapshots.
pub proof fn law_two_snapshots_suffice(
    s: RelayView,
    frame: JsonView,
    connection: Option<u64>,
    gateway_id: Seq<char>,
    now_ms: u64,
    arrived_at: u64,
)
    ensures
        ({
            let p = first_turn(s, frame, connection, gateway_id, now_ms, arrived_at);
            p.1 is Write ==> {
                let q = next_turn(p.0, p.1->Write_0, WriteOutcome::Committed, ""@);
                q.1 is Write ==> next_turn(q.0, q.1->Write_0, WriteOutcome::Committed, ""@).1
                    is Done
            }
        }),
{
}

impl RelayState {
    /// Ends a frame of a relay that keeps nothing on disk.
    fn finish(&mut self, p: Progress) -> (r: Option<String>)
        ensures
            (final(self)@, opt_view(r)) == finished((old(self)@, p@)),
    {
        match p {
            Progress::Done(r) => r,
            Progress::Write(t) => match self.resume_gateway_turn(t, WriteOutcome::Committed, "") {
                Progress::Done(r) => r,
                Progress::Write(u) => match self.resume_gateway_turn(
                    u,
                    WriteOutcome::Committed,
                    "",
                ) {
                    Progress::Done(r) => r,
                    Progress::Write(_) => None,
                },
            },
        }
    }

    /// Begins to work off a line that came over a connection.
    pub fn begin_connection_frame(
        &mut self,
        connection_id: u64,
        gateway_id: &str,
        raw: &str,
        registry: Option<&LaneRegistry>,
        now_ms: u64,
        arrived_at: u64,
    ) -> (r: Progress)
        ensures
            (final(self)@, r@) == connection_turn(
                old(self)@,
                connection_id,
                gateway_id@,
                json_read(raw@),
                lanes_of(registry),
                now_ms,
                arrived_at,
            ),
    {
        if !self.owns_gateway(connection_id, gateway_id) || !self.is_active_connection(
            connection_id,
        ) {
            return Progress::Done(None);
        }
        match read_json(raw) {
            None => Progress::Done(None),
            Some(frame) => match self.reject_unknown_gateway_send_lane(
                &frame,
                gateway_id,
                registry,
                now_ms,
            ) {
                Some(reply) => Progress::Done(Some(reply)),
                None => self.begin_gateway_frame(
                    &frame,
                    Some(connection_id),
                    gateway_id,
                    now_ms,
                    arrived_at,
                ),
            },
        }
    }

    /// Answers a line that came over a connection, where nothing is kept on
    /// disk.
    pub fn handle_gateway_frame_for_connection(
        &mut self,
        connection_id: u64,
        gateway_id: &str,
        raw: &str,
        registry: Option<&LaneRegistry>,
        now_ms: u64,
        arrived_at: u64,
    ) -> (r: Option<String>)
        ensures
            (final(self)@, opt_view(r)) == finished(
                connection_turn(
                    old(self)@,
                    connection_id,
                    gateway_id@,
                    json_read(raw@),
                    lanes_of(registry),
                    now_ms,
                    arrived_at,
                ),
            ),
    {
        let p = self.begin_connection_frame(
            connection_id,
            gateway_id,
            raw,
            registry,
            now_ms,
            arrived_at,
        );
        self.finish(p)
    }

    /// Answers a frame, where nothing is kept on disk.
    pub fn handle_gateway_value(
        &mut self,
        frame: &Json,
        connection: Option<u64>,
        gateway_id: &str,
        now_ms: u64,
        arrived_at: u64,
    ) -> (r: Option<String>)
        ensures
            (final(self)@, opt_view(r)) == finished(
                first_turn(old(self)@, frame@, connection, gateway_id@, now_ms, arrived_at),
            ),
    {
        let p = self.begin_gateway_frame(frame, connection, gateway_id, now_ms, arrived_at);
        self.finish(p)
    }

    /// Answers a line, where nothing is kept on disk. What is no JSON gets no
    /// answer.
    pub fn handle_gateway_frame_inner(
        &mut self,
        raw: &str,
        connection: Option<u64>,
        gateway_id: &str,
        now_ms: u64,
        arrived_at: u64,
    ) -> (r: Option<String>)
        ensures
            (final(self)@, opt_view(r)) == (match json_read(raw@) {
                Some(v) => finished(
                    first_turn(old(self)@, v, connection, gateway_id@, now_ms, arrived_at),
                ),
                None => (old(self)@, None),
            }),
    {
        match read_json(raw) {
            Some(v) => self.handle_gateway_value(&v, connection, gateway_id, now_ms, arrived_at),
            None => None,
        }
    }

    /// Answers a line of this gateway over no connection, where nothing is kept
    /// on disk.
    pub fn handle_gateway_frame_for_gateway(
        &mut self,
        gateway_id: &str,
        raw: &str,
        now_ms: u64,
        arrived_at: u64,
    ) -> (r: Option<String>)
        ensures
            (final(self)@, opt_view(r)) == (match json_read(raw@) {
                Some(v) => finished(
                    first_turn(old(self)@, v, None, gateway_id@, now_ms, arrived_at),
                ),
                None => (old(self)@, None),
            }),
    {
        self.handle_gateway_frame_inner(raw, None, gateway_id, now_ms, arrived_at)
    }

    /// Answers a line of the unauthenticated development gateway, where nothing
    /// is kept on disk.
    pub fn handle_gateway_frame(&mut self, raw: &str, now_ms: u64, arrived_at: u64) -> (r: Option<
        String,
    >)
        ensures
            (final(self)@, opt_view(r)) == (match json_read(raw@) {
                Some(v) => finished(
                    first_turn(old(self)@, v, None, DEV_GATEWAY_ID@, now_ms, arrived_at),
                ),
                None => (old(self)@, None),
            }),
    {
        self.handle_gateway_frame_inner(raw, None, DEV_GATEWAY_ID, now_ms, arrived_at)
    }
}

/// A line ends at the first end of line, so that a frame followed by one is read
/// whole and the rest stays.
pub proof fn law_line_ends_at_its_end(line: Seq<char>, rest: Seq<char>)
    requires
        forall|i: int| 0 <= i < line.len() ==> #[trigger] line[i] != '\n',
    ensures
        ({
            let s = line.push('\n') + rest;
            let p = line_end(s, 0);
            &&& p == line.len()
            &&& s.take(p) == line
            &&& s.skip(p + 1) == rest
        }),
        line_end(line, 0) == line.len(),
{
    let s = line.push('\n') + rest;
    lemma_line_end(s, 0, line.len() as int);
    lemma_line_end(line, 0, line.len() as int);
    assert(s.take(line.len() as int) =~= line);
    assert(s.skip(line.len() as int + 1) =~= rest);
}

proof fn lemma_line_end(s: Seq<char>, i: int, p: int)
    requires
        0 <= i <= p <= s.len(),
        p < s.len() ==> s[p] == '\n',
        forall|k: int| i <= k < p ==> #[trigger] s[k] != '\n',
    ensures
        line_end(s, i) == p,
    decreases p - i,
{
    if i < p {
        assert(s[i] != '\n');
        lemma_line_end(s, i + 1, p);
    }
}

/// A frame that was sent, or whose turn waits no more, is not sent again; one that
/// waits and was not sent is.
pub proof fn law_waiting_turns_are_forwarded_once(
    s: RelayView,
    frame: Seq<char>,
    message_id: Seq<char>,
    generation: u64,
    sent: Seq<(Seq<char>, u64)>,
)
    requires
        identity_of(frame) == Some((message_id, generation)),
    ensures
        to_forward(s, frame, sent) <==> {
            &&& !sent.contains((message_id, generation))
            &&& exists|i: int|
                0 <= i < s.inbound.len() && (#[trigger] s.inbound[i]).message_id == message_id
                    && s.inbound[i].generation == generation
        },
{
    if waits(s.inbound, message_id, generation) {
        let i = choose|i: int|
            0 <= i < s.inbound.len() && crate::relay::inbound::has_identity(
                #[trigger] s.inbound[i],
                message_id,
                generation,
            );
        assert(s.inbound[i].message_id == message_id);
    }
    if exists|i: int|
        0 <= i < s.inbound.len() && (#[trigger] s.inbound[i]).message_id == message_id
            && s.inbound[i].generation == generation {
        let i = choose|i: int|
            0 <= i < s.inbound.len() && (#[trigger] s.inbound[i]).message_id == message_id
                && s.inbound[i].generation == generation;
        assert(crate::relay::inbound::has_identity(s.inbound[i], message_id, generation));
    }
}

} // verus!
