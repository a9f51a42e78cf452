//! Writing the relay's state down and taking it up again.
use vstd::prelude::*;

use crate::lanes::{LaneRegistry, LaneView};
use crate::relay::guarantees::sound_inbound;
use crate::relay::records::{
    delivery_views, inbound_views, request_views, result_views, retired_views, tombstone_views,
    Delivery, DeliveryView, InboundAckTombstoneView, InboundMessageView, OutboundResultView,
    PendingRequest, RetiredOutboundResultView,
};
use crate::relay::results::lemma_filter_push;
use crate::relay::snapshots::{
    checked, deliveries_fault, delivery_fault, inbound_fault, ledger_fault, requests_fault, seq_before,
    validate_delivery_snapshot, validate_inbound_snapshot, validate_outbound_result_snapshot,
    validate_pending_requests, DeliverySnapshot, InboundSnapshot, SnapshotError, SnapshotFault,
};
use crate::relay::soundness::{
    lemma_all_deliveries_fine, lemma_faultless_deliveries, sound_deliveries, sound_ledger,
};
use crate::relay::state::{
    clock_after, fresh_relay, RelayState, RelayView, DELIVERY_SNAPSHOT_VERSION,
    INBOUND_SNAPSHOT_VERSION,
};

verus! {

/// A delivery snapshot as a value.
#[verifier::ext_equal]
pub struct DeliverySnapshotView {
    pub version: u32,
    pub clock_high_water_ms: u64,
    pub deliveries: Seq<DeliveryView>,
    pub next_seq: u64,
    pub outbound_results: Seq<OutboundResultView>,
    pub next_outbound_result_id: u64,
    pub retired_outbound_results: Seq<RetiredOutboundResultView>,
}

impl View for DeliverySnapshot {
    type V = DeliverySnapshotView;

    open spec fn view(&self) -> DeliverySnapshotView {
        DeliverySnapshotView {
            version: self.version,
            clock_high_water_ms: self.clock_high_water_ms,
            deliveries: delivery_views(self.deliveries@),
            next_seq: self.next_seq,
            outbound_results: result_views(self.outbound_results@),
            next_outbound_result_id: self.next_outbound_result_id,
            retired_outbound_results: retired_views(self.retired_outbound_results@),
        }
    }
}

/// An inbound snapshot as a value.
#[verifier::ext_equal]
pub struct InboundSnapshotView {
    pub version: u32,
    pub next_generation: u64,
    pub messages: Seq<InboundMessageView>,
    pub acknowledged: Seq<InboundAckTombstoneView>,
}

impl View for InboundSnapshot {
    type V = InboundSnapshotView;

    open spec fn view(&self) -> InboundSnapshotView {
        InboundSnapshotView {
            version: self.version,
            next_generation: self.next_generation,
            messages: inbound_views(self.messages@),
            acknowledged: tombstone_views(self.acknowledged@),
        }
    }
}

/// The delivery snapshot of a state.
pub open spec fn delivery_snapshot_of(s: RelayView) -> DeliverySnapshotView {
    DeliverySnapshotView {
        version: DELIVERY_SNAPSHOT_VERSION,
        clock_high_water_ms: s.clock_high_water_ms,
        deliveries: s.deliveries,
        next_seq: s.next_seq,
        outbound_results: s.outbound_results,
        next_outbound_result_id: s.next_outbound_result_id,
        retired_outbound_results: s.retired_outbound_results,
    }
}

/// The inbound snapshot of a state.
pub open spec fn inbound_snapshot_of(s: RelayView) -> InboundSnapshotView {
    InboundSnapshotView {
        version: INBOUND_SNAPSHOT_VERSION,
        next_generation: s.next_inbound_generation,
        messages: s.inbound,
        acknowledged: s.acknowledged_inbound,
    }
}

/// The first thing that is wrong with a delivery snapshot. A snapshot of
/// another format is never taken.
pub open spec fn delivery_snapshot_fault(
    snapshot: DeliverySnapshotView,
    lanes: Option<Seq<LaneView>>,
) -> Option<SnapshotFault> {
    if snapshot.version != DELIVERY_SNAPSHOT_VERSION {
        Some(SnapshotFault::DeliveryVersion(snapshot.version))
    } else if deliveries_fault(snapshot.deliveries, snapshot.next_seq, lanes) is Some {
        deliveries_fault(snapshot.deliveries, snapshot.next_seq, lanes)
    } else {
        ledger_fault(
            snapshot.outbound_results,
            snapshot.retired_outbound_results,
            snapshot.next_outbound_result_id,
            snapshot.clock_high_water_ms,
            snapshot.next_seq,
        )
    }
}

/// The greatest sequence, zero where there is none.
pub open spec fn max_seq(v: Seq<DeliveryView>) -> u64
    decreases v.len(),
{
    if v.len() == 0 {
        0
    } else if v.last().seq > max_seq(v.drop_last()) {
        v.last().seq
    } else {
        max_seq(v.drop_last())
    }
}

/// Selects the deliveries newer than a sequence.
pub open spec fn newer_than(seq: u64) -> spec_fn(DeliveryView) -> bool {
    |d: DeliveryView| d.seq > seq
}

/// The greater of two numbers.
pub open spec fn greater(a: u64, b: u64) -> u64 {
    if a >= b {
        a
    } else {
        b
    }
}

/// The state after a delivery snapshot was taken up. The sequence never goes
/// back, nor does the clock.
pub open spec fn with_deliveries(s: RelayView, snapshot: DeliverySnapshotView) -> RelayView {
    let all = s.deliveries + snapshot.deliveries.filter(newer_than(max_seq(s.deliveries)));
    RelayView {
        deliveries: all,
        next_seq: greater(
            greater(s.next_seq, snapshot.next_seq),
            greater(max_seq(snapshot.deliveries), max_seq(all)),
        ),
        outbound_results: snapshot.outbound_results,
        next_outbound_result_id: snapshot.next_outbound_result_id,
        retired_outbound_results: snapshot.retired_outbound_results,
        clock_high_water_ms: clock_after(s.clock_high_water_ms, snapshot.clock_high_water_ms),
        ..s
    }
}

/// The state after an inbound snapshot was taken up.
pub open spec fn with_inbound(s: RelayView, snapshot: InboundSnapshotView) -> RelayView {
    RelayView {
        inbound: snapshot.messages,
        next_inbound_generation: snapshot.next_generation,
        acknowledged_inbound: snapshot.acknowledged,
        ..s
    }
}

fn greatest_seq(v: &Vec<Delivery>) -> (r: u64)
    ensures
        r == max_seq(delivery_views(v@)),
{
    let ghost all = delivery_views(v@);
    let mut m: u64 = 0;
    for i in 0..v.len()
        invariant
            all == delivery_views(v@),
            m == max_seq(all.take(i as int)),
    {
        assert(all[i as int] == v@[i as int]@);
        assert(all.take(i + 1).drop_last() =~= all.take(i as int));
        assert(all.take(i + 1).last() == all[i as int]);
        if v[i].seq > m {
            m = v[i].seq;
        }
    }
    assert(all.take(all.len() as int) =~= all);
    m
}

fn greater_of(a: u64, b: u64) -> (r: u64)
    ensures
        r == greater(a, b),
{
    if a >= b {
        a
    } else {
        b
    }
}

impl RelayState {
    /// What is to be written of the deliveries and the ledger; nothing is
    /// written where the deliveries could not be taken up again.
    pub fn delivery_snapshot(&self) -> (r: Result<DeliverySnapshot, SnapshotError>)
        ensures
            match r {
                Ok(snapshot) => deliveries_fault(self@.deliveries, self@.next_seq, None) is None
                    && snapshot@ == delivery_snapshot_of(self@),
                Err(e) => deliveries_fault(self@.deliveries, self@.next_seq, None) == Some(e@),
            },
    {
        match validate_delivery_snapshot(&self.deliveries, self.next_seq, None) {
            Err(e) => {
                return Err(e);
            },
            Ok(_) => {},
        }
        let r = DeliverySnapshot {
            version: DELIVERY_SNAPSHOT_VERSION,
            clock_high_water_ms: self.clock_high_water_ms,
            deliveries: self.deliveries.clone(),
            next_seq: self.next_seq,
            outbound_results: self.outbound_results.clone(),
            next_outbound_result_id: self.next_outbound_result_id,
            retired_outbound_results: self.retired_outbound_results.clone(),
        };
        assert(r@.deliveries =~= self@.deliveries);
        assert(r@.outbound_results =~= self@.outbound_results);
        assert(r@.retired_outbound_results =~= self@.retired_outbound_results);
        Ok(r)
    }

    /// What is to be written of the inbound side; nothing is written where it
    /// could not be taken up again.
    pub fn inbound_snapshot(&self) -> (r: Result<InboundSnapshot, SnapshotError>)
        ensures
            ({
                let v = inbound_snapshot_of(self@);
                let fault = inbound_fault(
                    v.version,
                    v.next_generation,
                    v.messages,
                    v.acknowledged,
                );
                match r {
                    Ok(snapshot) => fault is None && snapshot@ == v,
                    Err(e) => fault == Some(e@),
                }
            }),
    {
        let r = InboundSnapshot {
            version: INBOUND_SNAPSHOT_VERSION,
            next_generation: self.next_inbound_generation,
            messages: self.inbound.clone(),
            acknowledged: self.acknowledged_inbound.clone(),
        };
        assert(r@.messages =~= self@.inbound);
        assert(r@.acknowledged =~= self@.acknowledged_inbound);
        match validate_inbound_snapshot(&r) {
            Err(e) => Err(e),
            Ok(_) => Ok(r),
        }
    }

    /// Takes up a delivery snapshot; one that is not right is refused whole.
    pub fn load_delivery_snapshot(
        &mut self,
        snapshot: DeliverySnapshot,
        registry: Option<&LaneRegistry>,
    ) -> (r: Result<(), SnapshotError>)
        ensures
            ({
                let lanes = match registry {
                    Some(reg) => Some(reg@.lanes),
                    None => None,
                };
                &&& checked(r, delivery_snapshot_fault(snapshot@, lanes))
                &&& final(self)@ == (if r is Ok {
                    with_deliveries(old(self)@, snapshot@)
                } else {
                    old(self)@
                })
            }),
    {
        if snapshot.version != DELIVERY_SNAPSHOT_VERSION {
            return Err(SnapshotError::DeliveryVersion(snapshot.version));
        }
        match validate_delivery_snapshot(&snapshot.deliveries, snapshot.next_seq, registry) {
            Err(e) => {
                return Err(e);
            },
            Ok(_) => {},
        }
        match validate_outbound_result_snapshot(
            &snapshot.outbound_results,
            &snapshot.retired_outbound_results,
            snapshot.next_outbound_result_id,
            snapshot.clock_high_water_ms,
            snapshot.next_seq,
        ) {
            Err(e) => {
                return Err(e);
            },
            Ok(_) => {},
        }
        let highest: u64 = greatest_seq(&self.deliveries);
        let loaded: u64 = greatest_seq(&snapshot.deliveries);
        let ghost own = self@.deliveries;
        let ghost list = snapshot@.deliveries;
        let ghost p = newer_than(highest);
        proof {
            reveal(Seq::filter);
            assert(list.take(0).filter(p) =~= Seq::empty());
            assert(own + list.take(0).filter(p) =~= own);
        }
        for i in 0..snapshot.deliveries.len()
            invariant
                list == delivery_views(snapshot.deliveries@),
                p == newer_than(highest),
                self@ == (RelayView { deliveries: own + list.take(i as int).filter(p), ..old(self)@
                }),
        {
            let d = &snapshot.deliveries[i];
            proof {
                assert(d@ == list[i as int]);
                lemma_filter_push(list, p, i as int);
            }
            if d.seq > highest {
                let ghost before = self@;
                self.deliveries.push(d.clone());
                assert(self@.deliveries =~= before.deliveries.push(d@));
                assert(self@.deliveries =~= own + list.take(i + 1).filter(p));
                assert(self@ =~= (RelayView {
                    deliveries: own + list.take(i + 1).filter(p),
                    ..old(self)@
                }));
            }
        }
        assert(list.take(list.len() as int) =~= list);
        self.next_seq = greater_of(
            greater_of(self.next_seq, snapshot.next_seq),
            greater_of(loaded, greatest_seq(&self.deliveries)),
        );
        self.outbound_results = snapshot.outbound_results;
        self.next_outbound_result_id = snapshot.next_outbound_result_id;
        self.retired_outbound_results = snapshot.retired_outbound_results;
        if snapshot.clock_high_water_ms > self.clock_high_water_ms {
            self.clock_high_water_ms = snapshot.clock_high_water_ms;
        }
        assert(self@ =~= with_deliveries(old(self)@, snapshot@));
        Ok(())
    }

    /// Takes up the awaited requests; a list that is not right is refused whole.
    pub fn load_pending_requests(&mut self, requests: Vec<PendingRequest>) -> (r: Result<
        (),
        SnapshotError,
    >)
        ensures
            checked(r, requests_fault(request_views(requests@))),
            final(self)@ == (if r is Ok {
                RelayView { pending_requests: request_views(requests@), ..old(self)@ }
            } else {
                old(self)@
            }),
    {
        match validate_pending_requests(&requests) {
            Err(e) => {
                return Err(e);
            },
            Ok(_) => {},
        }
        self.pending_requests = requests;
        Ok(())
    }

    /// Takes up an inbound snapshot; one that is not right is refused whole.
    pub fn load_inbound_snapshot(&mut self, snapshot: InboundSnapshot) -> (r: Result<
        (),
        SnapshotError,
    >)
        ensures
            checked(
                r,
                inbound_fault(
                    snapshot@.version,
                    snapshot@.next_generation,
                    snapshot@.messages,
                    snapshot@.acknowledged,
                ),
            ),
            final(self)@ == (if r is Ok {
                with_inbound(old(self)@, snapshot@)
            } else {
                old(self)@
            }),
    {
        match validate_inbound_snapshot(&snapshot) {
            Err(e) => {
                return Err(e);
            },
            Ok(_) => {},
        }
        self.inbound = snapshot.messages;
        self.next_inbound_generation = snapshot.next_generation;
        self.acknowledged_inbound = snapshot.acknowledged;
        Ok(())
    }
}

// ---- what a restart keeps -------------------------------------------------------

proof fn lemma_keep_all(v: Seq<DeliveryView>, p: spec_fn(DeliveryView) -> bool)
    requires
        forall|i: int| 0 <= i < v.len() ==> p(#[trigger] v[i]),
    ensures
        v.filter(p) == v,
    decreases v.len(),
{
    reveal(Seq::filter);
    if v.len() > 0 {
        let d = v.drop_last();
        assert forall|i: int| 0 <= i < d.len() implies p(#[trigger] d[i]) by {
            assert(p(v[i]));
        }
        lemma_keep_all(d, p);
        assert(p(v[v.len() - 1]));
        assert(d.push(v.last()) =~= v);
    } else {
        assert(v.filter(p) =~= v);
    }
}

/// The greatest of sequences that keep rising is the last one.
pub proof fn lemma_max_is_last(v: Seq<DeliveryView>)
    requires
        forall|i: int|
            0 <= i < v.len() ==> (#[trigger] v[i]).seq > seq_before(v, i),
    ensures
        max_seq(v) == seq_before(v, v.len() as int),
    decreases v.len(),
{
    if v.len() > 0 {
        let d = v.drop_last();
        assert forall|i: int| 0 <= i < d.len() implies (#[trigger] d[i]).seq > seq_before(d, i) by {
            assert(v[i].seq > seq_before(v, i));
        }
        lemma_max_is_last(d);
        assert(v[v.len() - 1].seq > seq_before(v, v.len() - 1));
    }
}

/// A fresh relay that takes up the snapshots of another has its durable state:
/// nothing waiting is lost, and no sequence, response or generation is used
/// again.
pub proof fn law_restart_restores_the_state(s: RelayView, lanes: Option<Seq<LaneView>>)
    requires
        delivery_snapshot_fault(delivery_snapshot_of(s), lanes) is None,
    ensures
        with_inbound(
            with_deliveries(fresh_relay(), delivery_snapshot_of(s)),
            inbound_snapshot_of(s),
        ) == (RelayView {
            pending_requests: Seq::empty(),
            connections: fresh_relay().connections,
            persistence_failure: None,
            ..s
        }),
{
    let f = fresh_relay();
    let snap = delivery_snapshot_of(s);
    let v = s.deliveries;
    lemma_faultless_deliveries(v, s.next_seq, lanes);
    assert forall|i: int| 0 <= i < v.len() implies (#[trigger] v[i]).seq > seq_before(v, i)
        && newer_than(0)(v[i]) by {
        assert(delivery_fault(v, i, lanes) is None);
    }
    lemma_keep_all(v, newer_than(0));
    lemma_max_is_last(v);
    assert(f.deliveries + v =~= v);
    let r = with_deliveries(f, snap);
    assert(r.deliveries == v);
    assert(r.next_seq == s.next_seq);
    assert(with_inbound(r, inbound_snapshot_of(s)) =~= (RelayView {
        pending_requests: Seq::empty(),
        connections: fresh_relay().connections,
        persistence_failure: None,
        ..s
    }));
}

/// A sound relay can be restarted: nothing is wrong with its snapshots.
pub proof fn law_sound_relay_can_restart(s: RelayView)
    requires
        sound_deliveries(s),
        sound_ledger(s),
        sound_inbound(s),
    ensures
        delivery_snapshot_fault(delivery_snapshot_of(s), None) is None,
        inbound_fault(
            INBOUND_SNAPSHOT_VERSION,
            inbound_snapshot_of(s).next_generation,
            inbound_snapshot_of(s).messages,
            inbound_snapshot_of(s).acknowledged,
        ) is None,
{
}

/// A relay starts only with deliveries and responses that it could itself have
/// written.
pub proof fn law_accepted_snapshot_is_sound(
    snapshot: DeliverySnapshotView,
    lanes: Option<Seq<LaneView>>,
)
    requires
        delivery_snapshot_fault(snapshot, lanes) is None,
    ensures
        ({
            let s = with_deliveries(fresh_relay(), snapshot);
            &&& sound_deliveries(s)
            &&& delivery_snapshot_of(s) == snapshot
        }),
{
    let f = fresh_relay();
    let v = snapshot.deliveries;
    lemma_faultless_deliveries(v, snapshot.next_seq, lanes);
    assert forall|i: int| 0 <= i < v.len() implies (#[trigger] v[i]).seq > seq_before(v, i)
        && newer_than(0)(v[i]) && delivery_fault(v, i, None) is None by {
        assert(delivery_fault(v, i, lanes) is None);
    }
    lemma_keep_all(v, newer_than(0));
    lemma_max_is_last(v);
    assert(f.deliveries + v =~= v);
    let s = with_deliveries(f, snapshot);
    assert(s.deliveries == v);
    assert(s.next_seq == snapshot.next_seq);
    lemma_all_deliveries_fine(v);
    assert(delivery_snapshot_of(s) =~= snapshot);
}

proof fn lemma_max_is_above(v: Seq<DeliveryView>, i: int)
    requires
        0 <= i < v.len(),
    ensures
        v[i].seq <= max_seq(v),
    decreases v.len(),
{
    if i < v.len() - 1 {
        lemma_max_is_above(v.drop_last(), i);
    }
}

proof fn lemma_max_is_there(v: Seq<DeliveryView>)
    requires
        v.len() > 0,
        max_seq(v) > 0,
    ensures
        exists|i: int| 0 <= i < v.len() && (#[trigger] v[i]).seq == max_seq(v),
    decreases v.len(),
{
    let d = v.drop_last();
    if v.last().seq > max_seq(d) {
        assert(v[v.len() - 1].seq == max_seq(v));
    } else if d.len() > 0 {
        lemma_max_is_there(d);
        let i = choose|i: int| 0 <= i < d.len() && (#[trigger] d[i]).seq == max_seq(d);
        assert(v[i].seq == max_seq(v));
    }
}

/// A snapshot that is loaded adds the deliveries that are newer than all that wait,
/// behind them; no sequence that was ever given is given again.
pub proof fn law_loading_adds_the_newer_deliveries(
    s: RelayView,
    snapshot: DeliverySnapshotView,
    d: DeliveryView,
)
    ensures
        ({
            let t = with_deliveries(s, snapshot);
            let newer = forall|i: int|
                0 <= i < s.deliveries.len() ==> (#[trigger] s.deliveries[i]).seq < d.seq;
            &&& t.deliveries.take(s.deliveries.len() as int) == s.deliveries
            &&& d.seq > 0 ==> (t.deliveries.contains(d) <==> s.deliveries.contains(d) || (
            snapshot.deliveries.contains(d) && newer))
            &&& t.next_seq >= s.next_seq
            &&& t.next_seq >= snapshot.next_seq
            &&& t.deliveries.contains(d) ==> t.next_seq >= d.seq
            &&& t.outbound_results == snapshot.outbound_results
            &&& t.retired_outbound_results == snapshot.retired_outbound_results
            &&& t.next_outbound_result_id == snapshot.next_outbound_result_id
            &&& t.clock_high_water_ms >= s.clock_high_water_ms
            &&& t.clock_high_water_ms >= snapshot.clock_high_water_ms
            &&& t.inbound == s.inbound
            &&& t.pending_requests == s.pending_requests
            &&& t.connections == s.connections
        }),
{
    let t = with_deliveries(s, snapshot);
    let p = newer_than(max_seq(s.deliveries));
    let more = snapshot.deliveries.filter(p);
    assert(t.deliveries.take(s.deliveries.len() as int) =~= s.deliveries);
    crate::relay::outcomes::lemma_filter_holds(snapshot.deliveries, p);
    let newer = forall|i: int|
        0 <= i < s.deliveries.len() ==> (#[trigger] s.deliveries[i]).seq < d.seq;
    if d.seq > max_seq(s.deliveries) {
        assert forall|i: int| 0 <= i < s.deliveries.len() implies (#[trigger] s.deliveries[i]).seq
            < d.seq by {
            lemma_max_is_above(s.deliveries, i);
        }
    } else if d.seq > 0 && newer {
        lemma_max_is_there(s.deliveries);
    }
    if s.deliveries.contains(d) {
        let i = choose|i: int| 0 <= i < s.deliveries.len() && s.deliveries[i] == d;
        assert(t.deliveries[i] == d);
    }
    if more.contains(d) {
        let i = choose|i: int| 0 <= i < more.len() && more[i] == d;
        assert(t.deliveries[s.deliveries.len() + i] == d);
    }
    if t.deliveries.contains(d) {
        let i = choose|i: int| 0 <= i < t.deliveries.len() && t.deliveries[i] == d;
        lemma_max_is_above(t.deliveries, i);
        if i < s.deliveries.len() {
            assert(s.deliveries[i] == d);
        } else {
            assert(more[i - s.deliveries.len()] == d);
        }
    }
}

} // verus!
