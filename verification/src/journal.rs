//! The files of the interaction ledger: the order of records in its snapshot
//! and the text of a line in its journal.
use vstd::multiset::Multiset;
use vstd::prelude::*;

use crate::interactions::{entry_views, EntryView, InteractionEntry, InteractionLedger};
use crate::json::{
    field_views, json_string, object_of, object_text, push_number, push_text,
};
use crate::text::{chars_of, decimal};
use crate::value::{differs_at, text_before};

verus! {

/// Whether one text comes before another.
pub fn text_less(a: &str, b: &str) -> (r: bool)
    ensures
        r == text_before(a@, b@),
{
    let x = chars_of(a);
    let y = chars_of(b);
    let mut k: usize = 0;
    while k < x.len() && k < y.len() && x[k] == y[k]
        invariant
            x@ == a@,
            y@ == b@,
            k <= x@.len(),
            k <= y@.len(),
            forall|i: int| 0 <= i < k ==> x@[i] == y@[i],
        decreases x@.len() - k,
    {
        k = k + 1;
    }
    assert(x@.take(k as int) =~= y@.take(k as int));
    let r = if k == y.len() {
        false
    } else if k == x.len() {
        true
    } else {
        (x[k] as u32) < (y[k] as u32)
    };
    proof {
        if r {
            assert(differs_at(a@, b@, k as int));
        } else {
            assert forall|j: int| !(#[trigger] differs_at(a@, b@, j)) by {
                if differs_at(a@, b@, j) {
                    if j < k {
                        assert(a@[j] == b@[j]);
                    } else if j > k {
                        assert(a@.take(j)[k as int] == b@.take(j)[k as int]);
                    }
                }
            }
        }
    }
    r
}

/// Of two texts at most one comes before the other.
pub proof fn law_text_order_is_asymmetric(a: Seq<char>, b: Seq<char>)
    ensures
        !(text_before(a, b) && text_before(b, a)),
{
    if text_before(a, b) && text_before(b, a) {
        let j = choose|j: int| #[trigger] differs_at(a, b, j);
        let k = choose|k: int| #[trigger] differs_at(b, a, k);
        if j < k {
            assert(b.take(k)[j] == a.take(k)[j]);
        } else if k < j {
            assert(a.take(j)[k] == b.take(j)[k]);
        }
    }
}

/// Whether one record comes before another in the snapshot: by time, then by
/// identifier.
pub open spec fn entry_before(a: EntryView, b: EntryView) -> bool {
    a.interaction_created_at_ms < b.interaction_created_at_ms || (a.interaction_created_at_ms
        == b.interaction_created_at_ms && text_before(a.interaction_id, b.interaction_id))
}

/// Whether no record comes before its predecessor.
pub open spec fn in_order(v: Seq<EntryView>) -> bool {
    forall|i: int| 0 <= i < v.len() - 1 ==> !entry_before(#[trigger] v[i + 1], v[i])
}

fn is_before(a: &InteractionEntry, b: &InteractionEntry) -> (r: bool)
    ensures
        r == entry_before(a@, b@),
{
    a.interaction_created_at_ms < b.interaction_created_at_ms || (a.interaction_created_at_ms
        == b.interaction_created_at_ms && text_less(
        a.interaction_id.as_str(),
        b.interaction_id.as_str(),
    ))
}

/// The records of a ledger in the order of its snapshot.
pub fn snapshot_entries(ledger: &InteractionLedger) -> (r: Vec<InteractionEntry>)
    ensures
        in_order(entry_views(r@)),
        entry_views(r@).to_multiset() == ledger@.entries.to_multiset(),
{
    let ghost all = ledger@.entries;
    let mut out: Vec<InteractionEntry> = Vec::new();
    assert(entry_views(out@) =~= all.take(0));
    for i in 0..ledger.entries.len()
        invariant
            all == ledger@.entries,
            in_order(entry_views(out@)),
            entry_views(out@).to_multiset() == all.take(i as int).to_multiset(),
            out@.len() == i,
    {
        let e = &ledger.entries[i];
        assert(e@ == all[i as int]);
        let ghost before = entry_views(out@);
        let mut k: usize = 0;
        while k < out.len() && !is_before(e, &out[k])
            invariant
                before == entry_views(out@),
                k <= out@.len(),
                k > 0 ==> !entry_before(e@, before[k - 1]),
            decreases out@.len() - k,
        {
            k = k + 1;
        }
        if k < out.len() {
            assert(entry_before(e@, before[k as int]));
        }
        out.insert(k, e.clone());
        let ghost after = entry_views(out@);
        proof {
            assert(after =~= before.insert(k as int, e@));
            before.to_multiset_ensures();
            assert(before.insert(k as int, e@).to_multiset() =~= before.to_multiset().insert(
                e@,
            )) by {
                lemma_insert_multiset(before, k as int, e@);
            }
            assert(all.take(i + 1) =~= all.take(i as int).push(e@));
            all.take(i as int).to_multiset_ensures();
            assert forall|j: int| 0 <= j < after.len() - 1 implies !entry_before(
                #[trigger] after[j + 1],
                after[j],
            ) by {
                if j + 1 < k {
                    assert(after[j + 1] == before[j + 1] && after[j] == before[j]);
                } else if j + 1 == k {
                    assert(after[j + 1] == e@ && after[j] == before[j]);
                } else if j == k {
                    assert(after[j] == e@ && after[j + 1] == before[k as int]);
                    law_text_order_is_asymmetric(
                        e@.interaction_id,
                        before[k as int].interaction_id,
                    );
                } else {
                    assert(after[j] == before[j - 1] && after[j + 1] == before[j]);
                    assert(!entry_before(before[j - 1 + 1], before[j - 1]));
                }
            }
        }
    }
    assert(all.take(all.len() as int) =~= all);
    out
}

proof fn lemma_insert_multiset(v: Seq<EntryView>, k: int, e: EntryView)
    requires
        0 <= k <= v.len(),
    ensures
        v.insert(k, e).to_multiset() == v.to_multiset().insert(e),
{
    let w = v.insert(k, e);
    w.to_multiset_ensures();
    v.to_multiset_ensures();
    assert(w.remove(k) =~= v);
    assert(w[k] == e);
    assert(w.contains(e));
    assert(w.remove(k).to_multiset() =~= w.to_multiset().remove(e));
    assert(w.to_multiset().count(e) > 0);
    assert(w.to_multiset().remove(e).insert(e) =~= w.to_multiset());
}

/// A record's line in the journal: a JSON object and an end of line.
pub open spec fn journal_line(e: EntryView) -> Seq<char> {
    object_text(
        seq![
            ("interaction_id"@, json_string(e.interaction_id)),
            ("lane_id"@, json_string(e.lane_id)),
            ("interaction_created_at_ms"@, decimal(e.interaction_created_at_ms as nat)),
            ("lane_interactions"@, decimal(e.lane_interactions as nat)),
        ],
    ).push('\n')
}

/// A record's line in the journal.
pub fn journal_line_text(e: &InteractionEntry) -> (r: String)
    ensures
        r@ == journal_line(e@),
{
    let mut fields: Vec<(&'static str, String)> = Vec::new();
    push_text(&mut fields, "interaction_id", e.interaction_id.as_str());
    push_text(&mut fields, "lane_id", e.lane_id.as_str());
    push_number(&mut fields, "interaction_created_at_ms", e.interaction_created_at_ms);
    push_number(&mut fields, "lane_interactions", e.lane_interactions);
    assert(field_views(fields@) =~= seq![
        ("interaction_id"@, json_string(e@.interaction_id)),
        ("lane_id"@, json_string(e@.lane_id)),
        ("interaction_created_at_ms"@, decimal(e@.interaction_created_at_ms as nat)),
        ("lane_interactions"@, decimal(e@.lane_interactions as nat)),
    ]);
    let mut s = object_of(&fields);
    s.push('\n');
    s
}

} // verus!
