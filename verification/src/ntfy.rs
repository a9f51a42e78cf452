//! Notifications: which deliveries the handset has not been told of.
use vstd::prelude::*;
use vstd::string::*;

use crate::relay::deliveries::{picked, read_refusal};
use crate::relay::records::{delivery_views, Delivery, DeliveryView};
use crate::relay::state::{RelayState, RelayView};

verus! {

/// Where notifications go, and the newest delivery that was announced.
#[derive(Debug)]
pub struct NtfyPush {
    pub url: String,
    pub token: Option<String>,
    pub last_seq: u64,
}

/// The deliveries that are newer than the last announced one.
pub open spec fn unannounced(relay: RelayView, last_seq: u64) -> Seq<DeliveryView> {
    if relay.next_seq <= last_seq || read_refusal(relay, last_seq, None, None) is Some {
        Seq::empty()
    } else {
        relay.deliveries.filter(picked(last_seq, None, None, None))
    }
}

impl NtfyPush {
    /// Announces what is newer than `last_seq`.
    pub fn new(url: String, token: Option<String>, last_seq: u64) -> (r: NtfyPush)
        ensures
            r.url == url,
            r.token == token,
            r.last_seq == last_seq,
    {
        NtfyPush { url, token, last_seq }
    }

    /// The deliveries to announce, oldest first. The relay is left as it is.
    pub fn announce_new(&self, relay: &mut RelayState) -> (r: Vec<Delivery>)
        ensures
            delivery_views(r@) == unannounced(old(relay)@, self.last_seq),
            final(relay)@ == old(relay)@,
    {
        let none: Vec<Delivery> = Vec::new();
        assert(delivery_views(none@) =~= Seq::empty());
        if relay.next_seq <= self.last_seq {
            return none;
        }
        match relay.deliveries_after(self.last_seq, false, None, None, None) {
            Ok((items, _)) => items,
            Err(_) => none,
        }
    }

    /// Remembers that a delivery was announced.
    pub fn announced(&mut self, seq: u64)
        ensures
            final(self).last_seq == (if seq > old(self).last_seq {
                seq
            } else {
                old(self).last_seq
            }),
            final(self).url == old(self).url,
            final(self).token == old(self).token,
    {
        if seq > self.last_seq {
            self.last_seq = seq;
        }
    }

    /// The title of a notification.
    pub fn title(lane_name: &str) -> (r: String)
        ensures
            r@ == "Telepathy · "@ + lane_name@,
    {
        let mut s = "Telepathy · ".to_string();
        s.append(lane_name);
        s
    }
}

/// A delivery that was announced is not announced again.
pub proof fn law_announced_once(relay: RelayView, last_seq: u64, d: DeliveryView)
    requires
        d.seq <= last_seq,
    ensures
        !unannounced(relay, last_seq).contains(d),
{
    relay.deliveries.filter_lemma(picked(last_seq, None, None, None));
}

/// While the relay is healthy, exactly the waiting deliveries that are newer than
/// the last announced one are announced.
pub proof fn law_newer_deliveries_are_announced(relay: RelayView, last_seq: u64, d: DeliveryView)
    requires
        relay.persistence_failure is None,
        last_seq <= crate::proto::MAX_SAFE_SEQUENCE,
        crate::relay::soundness::sound_deliveries(relay),
    ensures
        unannounced(relay, last_seq).contains(d) <==> relay.deliveries.contains(d) && d.seq
            > last_seq,
{
    crate::relay::outcomes::lemma_filter_holds(
        relay.deliveries,
        picked(last_seq, None, None, None),
    );
    crate::relay::soundness::lemma_rising(relay.deliveries, relay.next_seq);
    if relay.deliveries.contains(d) {
        let k = choose|k: int| 0 <= k < relay.deliveries.len() && relay.deliveries[k] == d;
        assert(relay.deliveries[k].seq <= relay.next_seq);
    }
}

} // verus!
