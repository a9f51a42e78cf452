//! The ledger of responses to gateway actions: each waits until the gateway
//! confirms it, and leaves a bounded trace when it goes.
use vstd::prelude::*;

use crate::json::{
    array_bytes, array_would_exceed, bool_text, json_bool, json_string, object_of, object_text,
    quote,
};
use crate::proto::MAX_SAFE_SEQUENCE;
use crate::relay::deliveries::{
    answered_by, enqueued, next_delivery, queue_overflows, would_exceed_pending_delivery_bytes,
};
use crate::relay::errors::RelayError;
use crate::relay::records::{
    result_json, result_jsons, result_text, result_texts, result_views, retired_json,
    retired_jsons, retired_text, retired_texts, retired_views, Delivery, DeliveryView,
    OutboundResult, OutboundResultView, RetiredOutboundResult, RetiredOutboundResultView,
};
use crate::relay::state::{
    active_gateway, clock_after, RelayState, RelayView, MAX_OUTBOUND_RESULTS,
    MAX_OUTBOUND_RESULTS_PER_GATEWAY, MAX_OUTBOUND_RESULT_LEDGER_BYTES, MAX_PENDING_DELIVERIES,
    MAX_RETIRED_OUTBOUND_RESULTS, MAX_RETIRED_OUTBOUND_RESULT_BYTES, OUTBOUND_RESULT_RETENTION_MS,
};
use crate::text::{opt_str_view, own_opt, same_text, views};

verus! {

/// The response to a gateway action. A durable one has an identifier by which
/// the gateway confirms it.
#[derive(Debug, PartialEq)]
pub struct GatewayActionResult {
    /// The response as a JSON text.
    pub result: String,
    pub result_id: Option<u64>,
}

/// A response as a value.
#[verifier::ext_equal]
pub struct ActionResultView {
    pub result: Seq<char>,
    pub result_id: Option<u64>,
}

impl View for GatewayActionResult {
    type V = ActionResultView;

    open spec fn view(&self) -> ActionResultView {
        ActionResultView { result: self.result@, result_id: self.result_id }
    }
}

/// What became of a confirmation.
#[derive(Debug, Clone, Copy, PartialEq, Eq, Structural)]
pub enum ResultRetirement {
    Retired,
    AlreadyRetired,
}

// ---- responses as JSON ----------------------------------------------------------

/// The response of an action that was done.
pub open spec fn success_json() -> Seq<char> {
    object_text(seq![("success"@, json_bool(true))])
}

/// The response of an action that was not done, and why.
pub open spec fn failure_json(error: Seq<char>) -> Seq<char> {
    object_text(seq![("error"@, json_string(error)), ("success"@, json_bool(false))])
}

/// The response of an action that was done.
pub fn success_text() -> (r: String)
    ensures
        r@ == success_json(),
{
    let mut fields: Vec<(&'static str, String)> = Vec::new();
    fields.push(("success", bool_text(true)));
    assert(crate::json::field_views(fields@) =~= seq![("success"@, json_bool(true))]);
    object_of(&fields)
}

/// The response of an action that was not done, and why.
pub fn failure_text(error: &str) -> (r: String)
    ensures
        r@ == failure_json(error@),
{
    let mut fields: Vec<(&'static str, String)> = Vec::new();
    fields.push(("error", quote(error)));
    fields.push(("success", bool_text(false)));
    assert(crate::json::field_views(fields@) =~= seq![
        ("error"@, json_string(error@)),
        ("success"@, json_bool(false)),
    ]);
    object_of(&fields)
}

/// The response that a record holds.
pub open spec fn durable_answer(r: OutboundResultView) -> ActionResultView {
    ActionResultView { result: r.result, result_id: Some(r.result_id) }
}

/// A refusal that the gateway may retry.
pub open spec fn transient_answer(result: Seq<char>) -> ActionResultView {
    ActionResultView { result, result_id: None }
}

impl GatewayActionResult {
    /// The response that a record holds.
    pub fn durable(record: &OutboundResult) -> (r: GatewayActionResult)
        ensures
            r@ == durable_answer(record@),
    {
        GatewayActionResult { result: record.result.clone(), result_id: Some(record.result_id) }
    }

    /// A refusal that the gateway may retry.
    pub fn transient(result: String) -> (r: GatewayActionResult)
        ensures
            r@ == transient_answer(result@),
    {
        GatewayActionResult { result, result_id: None }
    }
}

// ---- retired receipts -----------------------------------------------------------

/// The trace that a response leaves.
pub open spec fn trace_of(r: OutboundResultView) -> RetiredOutboundResultView {
    RetiredOutboundResultView {
        gateway_id: r.gateway_id,
        request_id: r.request_id,
        result_id: r.result_id,
    }
}

/// Whether one more trace takes the ledger over its limit in bytes.
pub open spec fn traces_overflow(
    v: Seq<RetiredOutboundResultView>,
    c: RetiredOutboundResultView,
) -> bool {
    array_bytes(retired_jsons(v).push(retired_json(c))) > MAX_RETIRED_OUTBOUND_RESULT_BYTES
}

/// Whether a trace fits the ledger at all.
pub open spec fn trace_fits(c: RetiredOutboundResultView) -> bool {
    !traces_overflow(Seq::empty(), c)
}

/// The newest traces that leave room for one more.
pub open spec fn room_for_trace(
    v: Seq<RetiredOutboundResultView>,
    c: RetiredOutboundResultView,
) -> Seq<RetiredOutboundResultView>
    decreases v.len(),
{
    if v.len() == 0 {
        v
    } else if v.len() >= MAX_RETIRED_OUTBOUND_RESULTS || traces_overflow(v, c) {
        room_for_trace(v.drop_first(), c)
    } else {
        v
    }
}

/// The traces with one more; the oldest give way.
pub open spec fn traced(v: Seq<RetiredOutboundResultView>, c: RetiredOutboundResultView) -> Seq<
    RetiredOutboundResultView,
> {
    room_for_trace(v, c).push(c)
}

/// The traces that stay are the newest ones, and with the new one they are
/// within both limits.
pub proof fn law_traces_are_bounded(
    v: Seq<RetiredOutboundResultView>,
    c: RetiredOutboundResultView,
)
    requires
        trace_fits(c),
    ensures
        room_for_trace(v, c).len() <= v.len(),
        room_for_trace(v, c) == v.skip(v.len() - room_for_trace(v, c).len()),
        traced(v, c).len() <= MAX_RETIRED_OUTBOUND_RESULTS,
        array_bytes(retired_jsons(traced(v, c))) <= MAX_RETIRED_OUTBOUND_RESULT_BYTES,
        traced(v, c).last() == c,
    decreases v.len(),
{
    let k = room_for_trace(v, c);
    assert(retired_jsons(traced(v, c)) =~= retired_jsons(k).push(retired_json(c)));
    if v.len() == 0 {
        assert(k =~= v.skip(0));
        assert(retired_jsons(k) =~= retired_jsons(Seq::empty()));
    } else if v.len() >= MAX_RETIRED_OUTBOUND_RESULTS || traces_overflow(v, c) {
        law_traces_are_bounded(v.drop_first(), c);
        assert(k =~= v.skip(v.len() - k.len()));
    } else {
        assert(k =~= v.skip(0));
    }
}

/// Adds a trace; the oldest give way. A trace that does not fit at all is
/// refused.
pub fn append_retired_outbound_result(
    results: &mut Vec<RetiredOutboundResult>,
    candidate: RetiredOutboundResult,
) -> (r: Result<(), RelayError>)
    ensures
        r == (if trace_fits(candidate@) {
            Ok::<(), RelayError>(())
        } else {
            Err(RelayError::RetiredTooLarge)
        }),
        retired_views(final(results)@) == (if r is Ok {
            traced(retired_views(old(results)@), candidate@)
        } else {
            retired_views(old(results)@)
        }),
{
    let text = retired_text(&candidate);
    let none: Vec<String> = Vec::new();
    assert(views(none@) =~= retired_jsons(Seq::empty()));
    if array_would_exceed(&none, text.as_str(), MAX_RETIRED_OUTBOUND_RESULT_BYTES) {
        return Err(RelayError::RetiredTooLarge);
    }
    let ghost all = retired_views(results@);
    let mut full: bool = true;
    while full
        invariant
            text@ == retired_json(candidate@),
            trace_fits(candidate@),
            room_for_trace(all, candidate@) == room_for_trace(retired_views(results@), candidate@),
            !full ==> room_for_trace(all, candidate@) == retired_views(results@),
        decreases results@.len() + (if full { 1nat } else { 0 }),
    {
        let texts = retired_texts(results);
        let ghost before = retired_views(results@);
        if results.len() >= MAX_RETIRED_OUTBOUND_RESULTS || array_would_exceed(
            &texts,
            text.as_str(),
            MAX_RETIRED_OUTBOUND_RESULT_BYTES,
        ) {
            if results.len() == 0 {
                assert(before =~= Seq::empty());
                assert(false);
            }
            let _ = results.remove(0);
            assert(retired_views(results@) =~= before.drop_first());
        } else {
            full = false;
        }
    }
    let ghost kept = retired_views(results@);
    let ghost c = candidate@;
    results.push(candidate);
    assert(retired_views(results@) =~= kept.push(c));
    Ok(())
}

// ---- looking up responses -------------------------------------------------------

/// Whether a response is to this request of this gateway.
pub open spec fn answers(r: OutboundResultView, gateway_id: Seq<char>, request_id: Seq<char>) -> bool {
    r.gateway_id == gateway_id && r.request_id == request_id
}

/// Index of the first response from `i` on to this request, the number of
/// responses where there is none.
pub open spec fn result_position(
    v: Seq<OutboundResultView>,
    gateway_id: Seq<char>,
    request_id: Seq<char>,
    i: int,
) -> int
    decreases v.len() - i,
{
    if i < 0 || i >= v.len() {
        v.len() as int
    } else if answers(v[i], gateway_id, request_id) {
        i
    } else {
        result_position(v, gateway_id, request_id, i + 1)
    }
}

/// What the position of a response says.
pub proof fn lemma_result_position(
    v: Seq<OutboundResultView>,
    gateway_id: Seq<char>,
    request_id: Seq<char>,
    i: int,
)
    requires
        0 <= i <= v.len(),
    ensures
        i <= result_position(v, gateway_id, request_id, i) <= v.len(),
        result_position(v, gateway_id, request_id, i) < v.len() ==> answers(
            v[result_position(v, gateway_id, request_id, i)],
            gateway_id,
            request_id,
        ),
        forall|k: int|
            i <= k < result_position(v, gateway_id, request_id, i) ==> !answers(
                #[trigger] v[k],
                gateway_id,
                request_id,
            ),
    decreases v.len() - i,
{
    if i < v.len() {
        lemma_result_position(v, gateway_id, request_id, i + 1);
    }
}

/// A position with these properties is the one that is found.
pub proof fn lemma_result_position_is(
    v: Seq<OutboundResultView>,
    gateway_id: Seq<char>,
    request_id: Seq<char>,
    p: int,
)
    requires
        0 <= p <= v.len(),
        p < v.len() ==> answers(v[p], gateway_id, request_id),
        forall|k: int| 0 <= k < p ==> !answers(#[trigger] v[k], gateway_id, request_id),
    ensures
        result_position(v, gateway_id, request_id, 0) == p,
{
    lemma_result_position(v, gateway_id, request_id, 0);
    let q = result_position(v, gateway_id, request_id, 0);
    if q < p {
        assert(!answers(v[q], gateway_id, request_id));
    }
    if p < q {
        assert(!answers(v[p], gateway_id, request_id));
    }
}

/// Index of the first response to this request.
fn find_result(v: &Vec<OutboundResult>, gateway_id: &str, request_id: &str) -> (p: usize)
    ensures
        p == result_position(result_views(v@), gateway_id@, request_id@, 0),
        p <= v@.len(),
{
    let ghost all = result_views(v@);
    let mut i: usize = 0;
    while i < v.len()
        invariant
            all == result_views(v@),
            i <= v@.len(),
            result_position(all, gateway_id@, request_id@, 0) == result_position(
                all,
                gateway_id@,
                request_id@,
                i as int,
            ),
        decreases v@.len() - i,
    {
        assert(all[i as int] == v@[i as int]@);
        if same_text(v[i].gateway_id.as_str(), gateway_id) && same_text(
            v[i].request_id.as_str(),
            request_id,
        ) {
            return i;
        }
        i = i + 1;
    }
    i
}

/// Time since a response was made, zero where the clock is behind it.
pub open spec fn age_ms(now_ms: u64, last_seen_at_ms: u64) -> nat {
    if now_ms < last_seen_at_ms {
        0
    } else {
        (now_ms - last_seen_at_ms) as nat
    }
}

/// Whether a response still protects its request: its gateway is connected, or
/// it is young enough.
pub open spec fn live(r: OutboundResultView, now_ms: u64, active: Option<Seq<char>>) -> bool {
    active == Some(r.gateway_id) || age_ms(now_ms, r.last_seen_at_ms)
        < OUTBOUND_RESULT_RETENTION_MS
}

/// Index of the first live response from `i` on to this request, the number of
/// responses where there is none.
pub open spec fn live_position(
    v: Seq<OutboundResultView>,
    gateway_id: Seq<char>,
    request_id: Seq<char>,
    now_ms: u64,
    active: Option<Seq<char>>,
    i: int,
) -> int
    decreases v.len() - i,
{
    if i < 0 || i >= v.len() {
        v.len() as int
    } else if answers(v[i], gateway_id, request_id) && live(v[i], now_ms, active) {
        i
    } else {
        live_position(v, gateway_id, request_id, now_ms, active, i + 1)
    }
}

// ---- abandoning old responses ---------------------------------------------------

/// Whether a response is given up: its gateway is not the protected one, and it
/// is out of the retry window.
pub open spec fn expired(r: OutboundResultView, now_ms: u64, protected: Option<Seq<char>>) -> bool {
    protected != Some(r.gateway_id) && age_ms(now_ms, r.last_seen_at_ms)
        >= OUTBOUND_RESULT_RETENTION_MS
}

/// Selects the responses that stay.
pub open spec fn unexpired(now_ms: u64, protected: Option<Seq<char>>) -> spec_fn(
    OutboundResultView,
) -> bool {
    |r: OutboundResultView| !expired(r, now_ms, protected)
}

/// The traces after the expired ones among the first `n` responses left theirs.
pub open spec fn traces_after(
    traces: Seq<RetiredOutboundResultView>,
    v: Seq<OutboundResultView>,
    now_ms: u64,
    protected: Option<Seq<char>>,
    n: int,
) -> Seq<RetiredOutboundResultView>
    decreases n,
{
    if n <= 0 || n > v.len() {
        traces
    } else {
        let before = traces_after(traces, v, now_ms, protected, n - 1);
        if expired(v[n - 1], now_ms, protected) {
            traced(before, trace_of(v[n - 1]))
        } else {
            before
        }
    }
}

/// Whether every expired response can leave its trace.
pub open spec fn reclaimable(
    v: Seq<OutboundResultView>,
    now_ms: u64,
    protected: Option<Seq<char>>,
) -> bool {
    forall|i: int|
        0 <= i < v.len() && expired(#[trigger] v[i], now_ms, protected) ==> trace_fits(
            trace_of(v[i]),
        )
}

/// The state without the expired responses. Deliveries stay.
pub open spec fn reclaimed(s: RelayView, now_ms: u64, protected: Option<Seq<char>>) -> RelayView {
    RelayView {
        outbound_results: s.outbound_results.filter(unexpired(now_ms, protected)),
        retired_outbound_results: traces_after(
            s.retired_outbound_results,
            s.outbound_results,
            now_ms,
            protected,
            s.outbound_results.len() as int,
        ),
        ..s
    }
}

/// Whether a response expired.
pub open spec fn any_expired(
    v: Seq<OutboundResultView>,
    now_ms: u64,
    protected: Option<Seq<char>>,
) -> bool {
    exists|i: int| 0 <= i < v.len() && expired(#[trigger] v[i], now_ms, protected)
}

/// A filter over one more item.
pub proof fn lemma_filter_push<A>(s: Seq<A>, p: spec_fn(A) -> bool, i: int)
    requires
        0 <= i < s.len(),
    ensures
        s.take(i + 1).filter(p) == (if p(s[i]) {
            s.take(i).filter(p).push(s[i])
        } else {
            s.take(i).filter(p)
        }),
{
    reveal(Seq::filter);
    assert(s.take(i + 1).drop_last() =~= s.take(i));
}

fn is_expired(r: &OutboundResult, now_ms: u64, protected: Option<&str>) -> (b: bool)
    ensures
        b == expired(r@, now_ms, opt_str_view(protected)),
{
    let is_protected = match protected {
        Some(id) => same_text(id, r.gateway_id.as_str()),
        None => false,
    };
    !is_protected && now_ms.saturating_sub(r.last_seen_at_ms) >= OUTBOUND_RESULT_RETENTION_MS
}

/// The trace of a response.
fn make_trace(r: &OutboundResult) -> (t: RetiredOutboundResult)
    ensures
        t@ == trace_of(r@),
{
    RetiredOutboundResult {
        gateway_id: r.gateway_id.clone(),
        request_id: r.request_id.clone(),
        result_id: r.result_id,
    }
}

/// The state after the clock moved on to `now_ms`.
pub open spec fn ticked(s: RelayView, now_ms: u64) -> RelayView {
    RelayView { clock_high_water_ms: clock_after(s.clock_high_water_ms, now_ms), ..s }
}

impl RelayState {
    /// Gives up the responses whose gateway is not the protected one and whose
    /// retry window is over. Says whether there were any.
    pub fn reclaim_expired_outbound_results(&mut self, now_ms: u64, protected: Option<&str>) -> (r:
        Result<bool, RelayError>)
        ensures
            match r {
                Ok(any) => {
                    let p = opt_str_view(protected);
                    &&& reclaimable(old(self)@.outbound_results, now_ms, p)
                    &&& any == any_expired(old(self)@.outbound_results, now_ms, p)
                    &&& final(self)@ == reclaimed(old(self)@, now_ms, p)
                },
                Err(e) => {
                    &&& e == RelayError::RetiredTooLarge
                    &&& !reclaimable(old(self)@.outbound_results, now_ms, opt_str_view(protected))
                    &&& final(self)@ == old(self)@
                },
            },
    {
        let ghost all = self@.outbound_results;
        let ghost p = opt_str_view(protected);
        let ghost keep = unexpired(now_ms, p);
        let ghost first = self@.retired_outbound_results;
        let mut retained: Vec<OutboundResult> = Vec::new();
        let mut traces: Vec<RetiredOutboundResult> = self.retired_outbound_results.clone();
        let mut any: bool = false;
        proof {
            reveal(Seq::filter);
            assert(retired_views(traces@) =~= first);
            assert(result_views(retained@) =~= all.take(0).filter(keep));
        }
        for i in 0..self.outbound_results.len()
            invariant
                self@ == old(self)@,
                all == self@.outbound_results,
                p == opt_str_view(protected),
                keep == unexpired(now_ms, p),
                retired_views(traces@) == traces_after(first, all, now_ms, p, i as int),
                result_views(retained@) == all.take(i as int).filter(keep),
                any == (exists|k: int| 0 <= k < i && expired(#[trigger] all[k], now_ms, p)),
                forall|k: int|
                    0 <= k < i && expired(#[trigger] all[k], now_ms, p) ==> trace_fits(
                        trace_of(all[k]),
                    ),
        {
            let result = &self.outbound_results[i];
            proof {
                assert(result@ == all[i as int]);
                lemma_filter_push(all, keep, i as int);
            }
            if is_expired(result, now_ms, protected) {
                let t = make_trace(result);
                match append_retired_outbound_result(&mut traces, t) {
                    Err(e) => {
                        assert(expired(all[i as int], now_ms, p));
                        return Err(e);
                    },
                    Ok(_) => {},
                }
                any = true;
                assert(expired(all[i as int], now_ms, p));
            } else {
                let ghost before = retained@;
                retained.push(result.clone());
                assert(result_views(retained@) =~= result_views(before).push(result@));
            }
        }
        assert(all.take(all.len() as int) =~= all);
        self.outbound_results = retained;
        self.retired_outbound_results = traces;
        assert(self@ =~= reclaimed(old(self)@, now_ms, p));
        Ok(any)
    }

    /// Opens a gateway action at `now_ms`: the clock moves on, and old responses
    /// are given up. Says whether any were; that change is to be written before
    /// the action goes on.
    pub fn begin_action(&mut self, now_ms: u64, protected: Option<&str>) -> (r: Result<
        bool,
        RelayError,
    >)
        ensures
            match r {
                Ok(any) => {
                    let t = ticked(old(self)@, now_ms);
                    let p = opt_str_view(protected);
                    &&& old(self)@.persistence_failure is None
                    &&& reclaimable(t.outbound_results, t.clock_high_water_ms, p)
                    &&& any == any_expired(t.outbound_results, t.clock_high_water_ms, p)
                    &&& final(self)@ == reclaimed(t, t.clock_high_water_ms, p)
                },
                Err(e) => {
                    let t = ticked(old(self)@, now_ms);
                    let p = opt_str_view(protected);
                    if old(self)@.persistence_failure is Some {
                        e == RelayError::Unavailable && final(self)@ == old(self)@
                    } else {
                        &&& e == RelayError::RetiredTooLarge
                        &&& !reclaimable(t.outbound_results, t.clock_high_water_ms, p)
                        &&& final(self)@ == t
                    }
                },
            },
    {
        match self.ensure_persistence_healthy() {
            Err(e) => {
                return Err(e);
            },
            Ok(_) => {},
        }
        let now: u64 = self.effective_clock_millis(now_ms);
        self.reclaim_expired_outbound_results(now, protected)
    }

    /// The response to this request that still protects it at `now_ms`. The
    /// clock moves on.
    pub fn live_outbound_result_for_request(
        &mut self,
        gateway_id: &str,
        request_id: &str,
        now_ms: u64,
    ) -> (r: Option<OutboundResult>)
        ensures
            final(self)@ == ticked(old(self)@, now_ms),
            ({
                let t = ticked(old(self)@, now_ms);
                let p = live_position(
                    t.outbound_results,
                    gateway_id@,
                    request_id@,
                    t.clock_high_water_ms,
                    active_gateway(t.connections),
                    0,
                );
                match r {
                    Some(record) => p < t.outbound_results.len() && record@
                        == t.outbound_results[p],
                    None => p == t.outbound_results.len(),
                }
            }),
    {
        let now: u64 = self.effective_clock_millis(now_ms);
        let ghost t = self@;
        let connected = match &self.connections.outbound {
            Some(c) => same_text(c.gateway_id.as_str(), gateway_id),
            None => false,
        };
        assert(connected == (active_gateway(t.connections) == Some(gateway_id@)));
        let mut i: usize = 0;
        while i < self.outbound_results.len()
            invariant
                self@ == t,
                t == ticked(old(self)@, now_ms),
                now == t.clock_high_water_ms,
                connected == (active_gateway(t.connections) == Some(gateway_id@)),
                i <= t.outbound_results.len(),
                live_position(
                    t.outbound_results,
                    gateway_id@,
                    request_id@,
                    now,
                    active_gateway(t.connections),
                    0,
                ) == live_position(
                    t.outbound_results,
                    gateway_id@,
                    request_id@,
                    now,
                    active_gateway(t.connections),
                    i as int,
                ),
            decreases t.outbound_results.len() - i,
        {
            let entry = &self.outbound_results[i];
            assert(entry@ == t.outbound_results[i as int]);
            if same_text(entry.gateway_id.as_str(), gateway_id) && same_text(
                entry.request_id.as_str(),
                request_id,
            ) && (connected || now.saturating_sub(entry.last_seen_at_ms)
                < OUTBOUND_RESULT_RETENTION_MS) {
                return Some(entry.clone());
            }
            i = i + 1;
        }
        None
    }
}

// ---- recording responses --------------------------------------------------------

/// What is to become of a gateway action.
pub enum Verdict {
    /// It was done before; the response is found at this index.
    Existing(int),
    /// It is refused for now and may be retried.
    Refused(RelayError),
    /// It fails.
    Failed(RelayError),
    /// It is done.
    Recorded,
}

/// Selects the responses of a gateway.
pub open spec fn of_gateway(gateway_id: Seq<char>) -> spec_fn(OutboundResultView) -> bool {
    |r: OutboundResultView| r.gateway_id == gateway_id
}

/// Whether the ledger takes no more responses of a gateway.
pub open spec fn ledger_full(v: Seq<OutboundResultView>, gateway_id: Seq<char>) -> bool {
    v.len() >= MAX_OUTBOUND_RESULTS || v.filter(of_gateway(gateway_id)).len()
        >= MAX_OUTBOUND_RESULTS_PER_GATEWAY
}

/// Whether one more response takes the ledger over its limit in bytes.
pub open spec fn ledger_overflows(v: Seq<OutboundResultView>, c: OutboundResultView) -> bool {
    array_bytes(result_jsons(v).push(result_json(c))) > MAX_OUTBOUND_RESULT_LEDGER_BYTES
}

/// The record of a response, made at the present clock.
pub open spec fn next_result(
    s: RelayView,
    gateway_id: Seq<char>,
    request_id: Seq<char>,
    result: Seq<char>,
    delivery_seq: Option<u64>,
) -> OutboundResultView {
    OutboundResultView {
        gateway_id,
        request_id,
        result_id: (s.next_outbound_result_id + 1) as u64,
        result,
        delivery_seq,
        last_seen_at_ms: s.clock_high_water_ms,
    }
}

/// What the ledger says to one more response.
pub open spec fn ledger_verdict(
    s: RelayView,
    gateway_id: Seq<char>,
    request_id: Seq<char>,
    result: Seq<char>,
    delivery_seq: Option<u64>,
) -> Verdict {
    let v = s.outbound_results;
    if ledger_full(v, gateway_id) {
        Verdict::Refused(RelayError::LedgerFull)
    } else if s.next_outbound_result_id >= MAX_SAFE_SEQUENCE {
        Verdict::Failed(RelayError::ResultIdOverflow)
    } else if ledger_overflows(
        v,
        next_result(s, gateway_id, request_id, result, delivery_seq),
    ) {
        Verdict::Refused(RelayError::LedgerByteLimit)
    } else {
        Verdict::Recorded
    }
}

/// What becomes of an action that only leaves a response.
pub open spec fn record_verdict(
    s: RelayView,
    gateway_id: Seq<char>,
    request_id: Seq<char>,
    result: Seq<char>,
) -> Verdict {
    let p = result_position(s.outbound_results, gateway_id, request_id, 0);
    if p < s.outbound_results.len() {
        Verdict::Existing(p)
    } else {
        ledger_verdict(s, gateway_id, request_id, result, None)
    }
}

/// What becomes of a send. A delivery that does not fit is refused before the
/// ledger is touched, so that a retry can succeed later.
pub open spec fn send_verdict(
    s: RelayView,
    gateway_id: Seq<char>,
    request_id: Seq<char>,
    d: DeliveryView,
) -> Verdict {
    let p = result_position(s.outbound_results, gateway_id, request_id, 0);
    if p < s.outbound_results.len() {
        Verdict::Existing(p)
    } else if s.deliveries.len() >= MAX_PENDING_DELIVERIES {
        Verdict::Refused(RelayError::QueueFull)
    } else if s.next_seq >= MAX_SAFE_SEQUENCE {
        Verdict::Refused(RelayError::SequenceExhausted)
    } else if queue_overflows(s.deliveries, d) {
        Verdict::Refused(RelayError::QueueByteLimit)
    } else {
        ledger_verdict(s, gateway_id, request_id, success_json(), Some(d.seq))
    }
}

/// The state with one more response.
pub open spec fn recorded(s: RelayView, r: OutboundResultView) -> RelayView {
    RelayView {
        outbound_results: s.outbound_results.push(r),
        next_outbound_result_id: r.result_id,
        ..s
    }
}

/// The state after an action that only leaves a response.
pub open spec fn after_record(
    s: RelayView,
    gateway_id: Seq<char>,
    request_id: Seq<char>,
    result: Seq<char>,
) -> RelayView {
    if record_verdict(s, gateway_id, request_id, result) is Recorded {
        recorded(s, next_result(s, gateway_id, request_id, result, None))
    } else {
        s
    }
}

/// The state after a send: the delivery and the response come together, and the
/// request that the reply names is answered.
pub open spec fn after_send(
    s: RelayView,
    gateway_id: Seq<char>,
    request_id: Seq<char>,
    d: DeliveryView,
) -> RelayView {
    if send_verdict(s, gateway_id, request_id, d) is Recorded {
        let r = recorded(
            enqueued(s, d),
            next_result(s, gateway_id, request_id, success_json(), Some(d.seq)),
        );
        RelayView {
            pending_requests: answered_by(s.pending_requests, d.chat_id, d.reply_to),
            ..r
        }
    } else {
        s
    }
}

/// The response to an action with this verdict, whose own response would be
/// `result`.
pub open spec fn verdict_answer(s: RelayView, verdict: Verdict, result: Seq<char>) -> Result<
    ActionResultView,
    RelayError,
> {
    match verdict {
        Verdict::Existing(p) => Ok(durable_answer(s.outbound_results[p])),
        Verdict::Refused(e) => Ok(transient_answer(failure_json(e.words()))),
        Verdict::Failed(e) => Err(e),
        Verdict::Recorded => Ok(
            ActionResultView { result, result_id: Some((s.next_outbound_result_id + 1) as u64) },
        ),
    }
}

/// Whether a result has this value.
pub open spec fn answer_is(
    r: Result<GatewayActionResult, RelayError>,
    a: Result<ActionResultView, RelayError>,
) -> bool {
    match (r, a) {
        (Ok(x), Ok(y)) => x@ == y,
        (Err(x), Err(y)) => x == y,
        _ => false,
    }
}

/// A response, and whether it was newly recorded.
pub struct Admission {
    pub answer: GatewayActionResult,
    pub changed: bool,
}

enum LedgerCheck {
    Refused(RelayError),
    Failed(RelayError),
    Fits(OutboundResult),
}

impl RelayState {
    /// Whether the ledger takes one more response.
    fn check_ledger(
        &self,
        gateway_id: &str,
        request_id: &str,
        result: &str,
        delivery_seq: Option<u64>,
    ) -> (r: LedgerCheck)
        ensures
            match r {
                LedgerCheck::Refused(e) => ledger_verdict(
                    self@,
                    gateway_id@,
                    request_id@,
                    result@,
                    delivery_seq,
                ) == Verdict::Refused(e),
                LedgerCheck::Failed(e) => ledger_verdict(
                    self@,
                    gateway_id@,
                    request_id@,
                    result@,
                    delivery_seq,
                ) == Verdict::Failed(e),
                LedgerCheck::Fits(c) => ledger_verdict(
                    self@,
                    gateway_id@,
                    request_id@,
                    result@,
                    delivery_seq,
                ) is Recorded && c@ == next_result(
                    self@,
                    gateway_id@,
                    request_id@,
                    result@,
                    delivery_seq,
                ),
            },
    {
        let ghost all = self@.outbound_results;
        let ghost p = of_gateway(gateway_id@);
        let mut count: usize = 0;
        proof {
            reveal(Seq::filter);
            assert(all.take(0).filter(p).len() == 0);
        }
        for i in 0..self.outbound_results.len()
            invariant
                all == self@.outbound_results,
                p == of_gateway(gateway_id@),
                count == all.take(i as int).filter(p).len(),
                count <= i,
        {
            proof {
                assert(all[i as int] == self.outbound_results@[i as int]@);
                lemma_filter_push(all, p, i as int);
            }
            if same_text(self.outbound_results[i].gateway_id.as_str(), gateway_id) {
                count = count + 1;
            }
        }
        assert(all.take(all.len() as int) =~= all);
        if self.outbound_results.len() >= MAX_OUTBOUND_RESULTS || count
            >= MAX_OUTBOUND_RESULTS_PER_GATEWAY {
            return LedgerCheck::Refused(RelayError::LedgerFull);
        }
        if self.next_outbound_result_id >= MAX_SAFE_SEQUENCE {
            return LedgerCheck::Failed(RelayError::ResultIdOverflow);
        }
        let candidate = OutboundResult {
            gateway_id: gateway_id.to_string(),
            request_id: request_id.to_string(),
            result_id: self.next_outbound_result_id + 1,
            result: result.to_string(),
            delivery_seq,
            last_seen_at_ms: self.clock_high_water_ms,
        };
        let texts = result_texts(&self.outbound_results);
        let text = result_text(&candidate);
        if array_would_exceed(&texts, text.as_str(), MAX_OUTBOUND_RESULT_LEDGER_BYTES) {
            return LedgerCheck::Refused(RelayError::LedgerByteLimit);
        }
        LedgerCheck::Fits(candidate)
    }

    /// Records the response of an action that does nothing else. A request that
    /// was answered before gets the same response again.
    pub fn admit_record(&mut self, gateway_id: &str, request_id: &str, result: &str) -> (r: Result<
        Admission,
        RelayError,
    >)
        ensures
            ({
                let verdict = record_verdict(old(self)@, gateway_id@, request_id@, result@);
                let a = verdict_answer(old(self)@, verdict, result@);
                match r {
                    Ok(x) => a == Ok::<ActionResultView, RelayError>(x.answer@) && x.changed == (
                    verdict is Recorded),
                    Err(e) => a == Err::<ActionResultView, RelayError>(e),
                }
            }),
            final(self)@ == after_record(old(self)@, gateway_id@, request_id@, result@),
    {
        let p: usize = find_result(&self.outbound_results, gateway_id, request_id);
        if p < self.outbound_results.len() {
            return Ok(
                Admission {
                    answer: GatewayActionResult::durable(&self.outbound_results[p]),
                    changed: false,
                },
            );
        }
        match self.check_ledger(gateway_id, request_id, result, None) {
            LedgerCheck::Refused(e) => {
                let words = e.message();
                Ok(
                    Admission {
                        answer: GatewayActionResult::transient(failure_text(words.as_str())),
                        changed: false,
                    },
                )
            },
            LedgerCheck::Failed(e) => Err(e),
            LedgerCheck::Fits(candidate) => {
                let answer = GatewayActionResult::durable(&candidate);
                self.next_outbound_result_id = candidate.result_id;
                let ghost c = candidate@;
                self.outbound_results.push(candidate);
                assert(self@ =~= recorded(old(self)@, c));
                Ok(Admission { answer, changed: true })
            },
        }
    }

    /// Queues the delivery of a send and records its response, both or neither.
    /// A request that was answered before gets the same response again and
    /// queues nothing.
    pub fn admit_send(
        &mut self,
        gateway_id: &str,
        request_id: &str,
        chat_id: &str,
        content: &str,
        reply_to: Option<&str>,
        arrived_at: u64,
    ) -> (r: Result<Admission, RelayError>)
        ensures
            ({
                let d = next_delivery(
                    old(self)@,
                    chat_id@,
                    content@,
                    opt_str_view(reply_to),
                    arrived_at,
                );
                let verdict = send_verdict(old(self)@, gateway_id@, request_id@, d);
                let a = verdict_answer(old(self)@, verdict, success_json());
                &&& match r {
                    Ok(x) => a == Ok::<ActionResultView, RelayError>(x.answer@) && x.changed == (
                    verdict is Recorded),
                    Err(e) => a == Err::<ActionResultView, RelayError>(e),
                }
                &&& final(self)@ == after_send(old(self)@, gateway_id@, request_id@, d)
            }),
    {
        let p: usize = find_result(&self.outbound_results, gateway_id, request_id);
        if p < self.outbound_results.len() {
            return Ok(
                Admission {
                    answer: GatewayActionResult::durable(&self.outbound_results[p]),
                    changed: false,
                },
            );
        }
        if self.deliveries.len() >= MAX_PENDING_DELIVERIES {
            return Ok(refused_for(RelayError::QueueFull));
        }
        if self.next_seq >= MAX_SAFE_SEQUENCE {
            return Ok(refused_for(RelayError::SequenceExhausted));
        }
        let seq: u64 = self.next_seq + 1;
        let delivery = Delivery {
            seq,
            chat_id: chat_id.to_string(),
            content: content.to_string(),
            reply_to: own_opt(reply_to),
            arrived_at,
        };
        if would_exceed_pending_delivery_bytes(&self.deliveries, &delivery) {
            return Ok(refused_for(RelayError::QueueByteLimit));
        }
        let result = success_text();
        match self.check_ledger(gateway_id, request_id, result.as_str(), Some(seq)) {
            LedgerCheck::Refused(e) => Ok(refused_for(e)),
            LedgerCheck::Failed(e) => Err(e),
            LedgerCheck::Fits(candidate) => {
                let answer = GatewayActionResult::durable(&candidate);
                let ghost c = candidate@;
                let ghost d = delivery@;
                self.next_seq = seq;
                self.deliveries.push(delivery);
                self.next_outbound_result_id = candidate.result_id;
                self.outbound_results.push(candidate);
                assert(self@ =~= recorded(enqueued(old(self)@, d), c));
                match reply_to {
                    Some(message_id) => {
                        let _ = self.take_specific_request(chat_id, message_id);
                    },
                    None => {},
                }
                Ok(Admission { answer, changed: true })
            },
        }
    }
}

fn refused_for(e: RelayError) -> (r: Admission)
    ensures
        r.answer@ == transient_answer(failure_json(e.words())),
        !r.changed,
{
    let words = e.message();
    Admission {
        answer: GatewayActionResult::transient(failure_text(words.as_str())),
        changed: false,
    }
}

// ---- confirming responses -------------------------------------------------------

/// Whether this exact receipt was retired.
pub open spec fn is_retired(
    v: Seq<RetiredOutboundResultView>,
    gateway_id: Seq<char>,
    request_id: Seq<char>,
    result_id: u64,
) -> bool {
    v.contains(RetiredOutboundResultView { gateway_id, request_id, result_id })
}

/// What a confirmation is answered.
pub open spec fn retirement(
    s: RelayView,
    gateway_id: Seq<char>,
    request_id: Seq<char>,
    result_id: u64,
) -> Result<ResultRetirement, RelayError> {
    let p = result_position(s.outbound_results, gateway_id, request_id, 0);
    if s.persistence_failure is Some {
        Err(RelayError::Unavailable)
    } else if p < s.outbound_results.len() {
        if s.outbound_results[p].result_id != result_id {
            Err(RelayError::ResultIdMismatch)
        } else if !trace_fits(trace_of(s.outbound_results[p])) {
            Err(RelayError::RetiredTooLarge)
        } else {
            Ok(ResultRetirement::Retired)
        }
    } else if is_retired(s.retired_outbound_results, gateway_id, request_id, result_id) {
        Ok(ResultRetirement::AlreadyRetired)
    } else {
        Err(RelayError::ResultIdMismatch)
    }
}

/// The state after a confirmation.
pub open spec fn after_retirement(
    s: RelayView,
    gateway_id: Seq<char>,
    request_id: Seq<char>,
    result_id: u64,
) -> RelayView {
    let p = result_position(s.outbound_results, gateway_id, request_id, 0);
    if retirement(s, gateway_id, request_id, result_id) == Ok::<ResultRetirement, RelayError>(
        ResultRetirement::Retired,
    ) {
        RelayView {
            outbound_results: s.outbound_results.remove(p),
            retired_outbound_results: traced(
                s.retired_outbound_results,
                trace_of(s.outbound_results[p]),
            ),
            ..s
        }
    } else {
        s
    }
}

impl RelayState {
    /// Removes exactly the confirmed response. A repeated confirmation is
    /// accepted; one with another identifier is not.
    pub fn retire_outbound_result(
        &mut self,
        gateway_id: &str,
        request_id: &str,
        result_id: u64,
    ) -> (r: Result<ResultRetirement, RelayError>)
        ensures
            r == retirement(old(self)@, gateway_id@, request_id@, result_id),
            final(self)@ == after_retirement(old(self)@, gateway_id@, request_id@, result_id),
    {
        match self.ensure_persistence_healthy() {
            Err(e) => {
                return Err(e);
            },
            Ok(_) => {},
        }
        let p: usize = find_result(&self.outbound_results, gateway_id, request_id);
        let ghost all = self@.outbound_results;
        if p < self.outbound_results.len() {
            assert(all[p as int] == self.outbound_results@[p as int]@);
            if self.outbound_results[p].result_id != result_id {
                return Err(RelayError::ResultIdMismatch);
            }
            let t = make_trace(&self.outbound_results[p]);
            match append_retired_outbound_result(&mut self.retired_outbound_results, t) {
                Err(e) => {
                    assert(self@ =~= old(self)@);
                    return Err(e);
                },
                Ok(_) => {},
            }
            let _ = self.outbound_results.remove(p);
            assert(self@.outbound_results =~= all.remove(p as int));
            assert(self@ =~= after_retirement(old(self)@, gateway_id@, request_id@, result_id));
            return Ok(ResultRetirement::Retired);
        }
        let ghost traces = self@.retired_outbound_results;
        let ghost wanted = RetiredOutboundResultView {
            gateway_id: gateway_id@,
            request_id: request_id@,
            result_id,
        };
        let mut i: usize = 0;
        while i < self.retired_outbound_results.len()
            invariant
                self@ == old(self)@,
                self@.persistence_failure is None,
                traces == self@.retired_outbound_results,
                p == result_position(self@.outbound_results, gateway_id@, request_id@, 0),
                p == self@.outbound_results.len(),
                wanted == (RetiredOutboundResultView {
                    gateway_id: gateway_id@,
                    request_id: request_id@,
                    result_id,
                }),
                i <= traces.len(),
                forall|k: int| 0 <= k < i ==> #[trigger] traces[k] != wanted,
            decreases traces.len() - i,
        {
            let t = &self.retired_outbound_results[i];
            assert(t@ == traces[i as int]);
            if same_text(t.gateway_id.as_str(), gateway_id) && same_text(
                t.request_id.as_str(),
                request_id,
            ) && t.result_id == result_id {
                assert(traces[i as int] =~= wanted);
                return Ok(ResultRetirement::AlreadyRetired);
            }
            i = i + 1;
        }
        Err(RelayError::ResultIdMismatch)
    }
}

} // verus!
