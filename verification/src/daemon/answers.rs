//! What a reader finds in the answers of the API: which values stand under which
//! keys, and what the handset may do with them.
use vstd::prelude::*;

use crate::daemon::delivery_api::{consume_turn, delivery_turn, named_sequences, RelayProgressView};
use crate::daemon::interaction_api::counted;
use crate::daemon::message_api::{
    consumed_answer, first_spoken_fault, handset_deliveries, handset_delivery, head_answer,
    message_answer, pending_answer, query_fault, read_answer, shown_lane, shown_state, spoken_fault,
    title_of, DeliveryQueryView,
};
use crate::daemon::responses::{bare_ok, lane_json, lane_ok, refusal, spoken_ok, ResponseView};
use crate::daemon::state::DaemonView;
use crate::frames::{has_optional_number, has_optional_text, is_object_text};
use crate::json::{array_text, json_bool, json_string, object_text, optional_number, optional_text};
use crate::lanes::{active_lane, has_lane, LaneView, RegistryView};
use crate::proto::{valid_lane_id, MAX_SAFE_SEQUENCE};
use crate::relay::deliveries::{
    first_sequence_fault, left, of_lane, picked, read_refusal, sequence_fault, unspoken,
};
use crate::relay::outcomes::lemma_filter_holds;
use crate::relay::records::DeliveryView;
use crate::relay::soundness::{lemma_faultless_deliveries, lemma_rising, sound_deliveries};
use crate::relay::state::RelayView;
use crate::text::decimal;
use crate::trees::{
    in_order, lemma_before, lemma_list, lemma_no_member, lemma_object, lemma_ordered_members,
    lemma_plain_object, written_as,
};
use crate::value::{
    json_read, json_text, natural_value, plain_key, plain_value, reads_back, JsonView,
};

verus! {

/// Whether an answer is this object, as JSON.
pub open spec fn answers_with(r: ResponseView, status: u16, v: JsonView) -> bool {
    &&& r.status == status
    &&& r.json
    &&& is_object_text(r.text, v)
    &&& (reads_back(v) ==> json_read(r.text) == Some(v))
}

// ---- deliveries -----------------------------------------------------------------

/// Whether an object shows a delivery: every field under its own name.
pub open spec fn shows(v: JsonView, d: DeliveryView) -> bool {
    &&& v is Object
    &&& v.get("seq"@) == Some(natural_value(d.seq))
    &&& v.get("chat_id"@) == Some(JsonView::Text(d.chat_id))
    &&& v.get("content"@) == Some(JsonView::Text(d.content))
    &&& has_optional_text(v, "reply_to"@, d.reply_to)
    &&& v.get("arrived_at"@) == Some(natural_value(d.arrived_at))
}

spec fn delivery_fields(d: DeliveryView) -> Seq<(Seq<char>, JsonView)> {
    let reply = match d.reply_to {
        Some(t) => seq![("reply_to"@, JsonView::Text(t))],
        None => seq![],
    };
    seq![
        ("arrived_at"@, natural_value(d.arrived_at)),
        ("chat_id"@, JsonView::Text(d.chat_id)),
        ("content"@, JsonView::Text(d.content)),
    ] + reply + seq![("seq"@, natural_value(d.seq))]
}

proof fn lemma_delivery_keys()
    ensures
        crate::value::text_before("arrived_at"@, "chat_id"@),
        crate::value::text_before("chat_id"@, "content"@),
        crate::value::text_before("content"@, "reply_to"@),
        crate::value::text_before("content"@, "seq"@),
        crate::value::text_before("reply_to"@, "seq"@),
        "arrived_at"@ != "reply_to"@ && "chat_id"@ != "reply_to"@ && "content"@ != "reply_to"@
            && "seq"@ != "reply_to"@,
        plain_key("arrived_at"@) && plain_key("chat_id"@) && plain_key("content"@) && plain_key(
            "reply_to"@,
        ) && plain_key("seq"@),
{
    reveal_strlit("arrived_at");
    reveal_strlit("chat_id");
    reveal_strlit("content");
    reveal_strlit("reply_to");
    reveal_strlit("seq");
    lemma_before("arrived_at"@, "chat_id"@, 0);
    lemma_before("chat_id"@, "content"@, 1);
    lemma_before("content"@, "reply_to"@, 0);
    lemma_before("content"@, "seq"@, 0);
    lemma_before("reply_to"@, "seq"@, 0);
    assert("arrived_at"@.len() == 10 && "chat_id"@.len() == 7 && "content"@.len() == 7
        && "reply_to"@.len() == 8 && "seq"@.len() == 3);
}

/// A delivery is shown to the handset with every field under its own name, and
/// reads back as it was written.
pub proof fn law_delivery_is_shown_as_it_is(d: DeliveryView) -> (v: JsonView)
    ensures
        is_object_text(handset_delivery(d), v),
        shows(v, d),
        plain_value(v, 1),
{
    lemma_delivery(d);
    JsonView::Object(delivery_fields(d))
}

proof fn lemma_delivery(d: DeliveryView)
    ensures
        ({
            let v = JsonView::Object(delivery_fields(d));
            &&& handset_delivery(d) == json_text(v)
            &&& shows(v, d)
            &&& plain_value(v, 1)
        }),
{
    lemma_delivery_keys();
    let f = delivery_fields(d);
    let members = seq![
        ("arrived_at"@, decimal(d.arrived_at as nat)),
        ("chat_id"@, crate::json::json_string(d.chat_id)),
        ("content"@, crate::json::json_string(d.content)),
    ] + crate::json::optional_text("reply_to"@, d.reply_to) + seq![
        ("seq"@, decimal(d.seq as nat)),
    ];
    assert(written_as(members, f));
    lemma_object(members, f);
    assert(in_order(f)) by {
        assert forall|i: int| 0 < i < f.len() implies crate::value::text_before(
            f[i - 1].0,
            (#[trigger] f[i]).0,
        ) by {
            if i == 1 || i == 2 || i == 3 || i == 4 {
            }
        }
    }
    lemma_ordered_members(f);
    assert(f[0].0 == "arrived_at"@ && f[1].0 == "chat_id"@ && f[2].0 == "content"@);
    assert(f[f.len() - 1].0 == "seq"@);
    if d.reply_to is Some {
        assert(f[3].0 == "reply_to"@);
    } else {
        lemma_no_member(f, "reply_to"@, 0);
    }
    assert forall|i: int| 0 <= i < f.len() implies plain_key((#[trigger] f[i]).0) && plain_value(
        f[i].1,
        0,
    ) by {
        if i == 0 || i == 1 || i == 2 || i == 3 || i == 4 {
        }
    }
    lemma_plain_object(f, 0);
}

/// Whether a value is the list of these deliveries, in their order.
pub open spec fn shows_all(v: JsonView, items: Seq<DeliveryView>) -> bool {
    &&& v is List
    &&& v->List_0.len() == items.len()
    &&& forall|i: int| 0 <= i < items.len() ==> shows(#[trigger] v->List_0[i], items[i])
}

/// Deliveries are shown one by one, in their order.
pub proof fn law_deliveries_are_shown_in_order(items: Seq<DeliveryView>) -> (v: JsonView)
    ensures
        handset_deliveries(items) == json_text(v),
        shows_all(v, items),
        plain_value(v, 2),
{
    let texts = Seq::new(items.len(), |i: int| handset_delivery(items[i]));
    let trees = Seq::new(items.len(), |i: int| JsonView::Object(delivery_fields(items[i])));
    assert forall|i: int| 0 <= i < items.len() implies #[trigger] texts[i] == json_text(trees[i])
        && shows(trees[i], items[i]) && plain_value(trees[i], 1) by {
        lemma_delivery(items[i]);
    }
    lemma_list(texts, trees);
    let v = JsonView::List(trees);
    assert(plain_value(v, 2)) by {
        assert forall|i: int| 0 <= i < trees.len() implies plain_value(#[trigger] trees[i], 1) by {
            assert(texts[i] == json_text(trees[i]));
        }
    }
    assert forall|i: int| 0 <= i < items.len() implies shows(#[trigger] trees[i], items[i]) by {
        assert(texts[i] == json_text(trees[i]));
    }
    v
}

/// The answer to a read holds the deliveries, each as it is, and where the queue
/// ends. It reads back as it was written.
pub proof fn law_read_answer_holds_the_deliveries(items: Seq<DeliveryView>, latest: u64) -> (v:
    JsonView)
    ensures
        answers_with(read_answer(items, latest), 200, v),
        v.get("deliveries"@) is Some,
        shows_all(v.get("deliveries"@)->0, items),
        v.get("latest"@) == Some(natural_value(latest)),
        plain_value(v, 3),
{
    let list = law_deliveries_are_shown_in_order(items);
    let f = seq![("deliveries"@, list), ("latest"@, natural_value(latest))];
    let members = seq![
        ("deliveries"@, handset_deliveries(items)),
        ("latest"@, decimal(latest as nat)),
    ];
    assert(written_as(members, f));
    lemma_object(members, f);
    reveal_strlit("deliveries");
    reveal_strlit("latest");
    lemma_before("deliveries"@, "latest"@, 0);
    lemma_ordered_members(f);
    assert(f[0].0 == "deliveries"@ && f[1].0 == "latest"@);
    lemma_plain_object(f, 2);
    JsonView::Object(f)
}

/// What a read of a valid query gives: exactly the deliveries that are newer than
/// the cursor, of the lane, of the request and up to the bound where these are
/// given, in the order in which they wait. One that consumes leaves exactly the
/// others; one that does not leaves all.
pub proof fn law_read_gives_what_was_asked_for(
    reg: RegistryView,
    s: RelayView,
    q: DeliveryQueryView,
    d: DeliveryView,
) -> (items: Seq<DeliveryView>)
    requires
        query_fault(reg, q) is None,
        read_refusal(s, q.after, q.reply_to, q.through_seq) is None,
        sound_deliveries(s),
    ensures
        ({
            let asked = {
                &&& d.seq > q.after
                &&& (q.lane_id is Some ==> d.chat_id == q.lane_id->0)
                &&& (q.reply_to is Some ==> d.reply_to == q.reply_to)
                &&& (q.through_seq is Some ==> d.seq <= q.through_seq->0)
            };
            let r = delivery_turn(reg, s, q);
            let answer = match r.1 {
                RelayProgressView::Done(a) => a,
                RelayProgressView::Write(save) => save.success,
            };
            let latest = if s.deliveries.len() > 0 {
                s.deliveries.last().seq
            } else {
                q.after
            };
            &&& answer == read_answer(items, latest)
            &&& (items.contains(d) <==> s.deliveries.contains(d) && asked)
            &&& (r.0.deliveries.contains(d) <==> s.deliveries.contains(d) && !(q.consume && asked))
            &&& (r.1 is Write <==> q.consume && items.len() > 0)
            &&& r.0 == (RelayView { deliveries: r.0.deliveries, ..s })
        }),
        forall|i: int, j: int|
            0 <= i < j < items.len() ==> (#[trigger] items[i]).seq < (#[trigger] items[j]).seq,
{
    let p = picked(q.after, q.lane_id, q.reply_to, q.through_seq);
    let l = left(q.after, q.lane_id, q.reply_to, q.through_seq);
    lemma_filter_holds(s.deliveries, p);
    lemma_filter_holds(s.deliveries, l);
    let items = s.deliveries.filter(p);
    lemma_rising(s.deliveries, s.next_seq);
    lemma_filter_rises(s.deliveries, p);
    let kept = s.deliveries.filter(l);
    assert(items.contains(d) <==> s.deliveries.contains(d) && p(d));
    assert(kept.contains(d) <==> s.deliveries.contains(d) && l(d));
    items
}

/// A selection of deliveries in order is in order.
proof fn lemma_filter_rises(v: Seq<DeliveryView>, p: spec_fn(DeliveryView) -> bool)
    requires
        forall|i: int, j: int|
            0 <= i < j < v.len() ==> (#[trigger] v[i]).seq < (#[trigger] v[j]).seq,
    ensures
        forall|i: int, j: int|
            0 <= i < j < v.filter(p).len() ==> (#[trigger] v.filter(p)[i]).seq < (
            #[trigger] v.filter(p)[j]).seq,
    decreases v.len(),
{
    reveal(Seq::filter);
    if v.len() > 0 {
        let d = v.drop_last();
        assert forall|i: int, j: int| 0 <= i < j < d.len() implies (#[trigger] d[i]).seq < (
        #[trigger] d[j]).seq by {
            assert(v[i].seq < v[j].seq);
        }
        lemma_filter_rises(d, p);
        lemma_filter_holds(d, p);
        let w = v.filter(p);
        let u = d.filter(p);
        assert forall|i: int, j: int| 0 <= i < j < w.len() implies (#[trigger] w[i]).seq < (
        #[trigger] w[j]).seq by {
            if p(v.last()) && j == w.len() - 1 {
                assert(w[i] == u[i]);
                assert(u.contains(u[i]));
                let k = choose|k: int| 0 <= k < d.len() && d[k] == u[i];
                assert(v[k].seq < v[v.len() - 1].seq);
            } else {
                assert(w[i] == u[i] && w[j] == u[j]);
            }
        }
    }
}

// ---- consuming what was shown ---------------------------------------------------

/// The numbers of a request are those that a list of deliveries shows.
pub open spec fn names_shown(numbers: Seq<JsonView>, shown: JsonView) -> bool {
    &&& shown is List
    &&& numbers.len() == shown->List_0.len()
    &&& forall|i: int|
        0 <= i < numbers.len() ==> Some(#[trigger] numbers[i]) == shown->List_0[i].get("seq"@)
}

proof fn lemma_no_spoken_fault(v: Seq<JsonView>, i: int)
    requires
        0 <= i <= v.len(),
        forall|k: int| 0 <= k < v.len() ==> #[trigger] spoken_fault(v, k) is None,
    ensures
        first_spoken_fault(v, i) is None,
    decreases v.len() - i,
{
    if i < v.len() {
        assert(spoken_fault(v, i) is None);
        lemma_no_spoken_fault(v, i + 1);
    }
}

proof fn lemma_no_sequence_fault(v: Seq<u64>, i: int)
    requires
        0 <= i <= v.len(),
        forall|k: int| 0 <= k < v.len() ==> #[trigger] sequence_fault(v, k) is None,
    ensures
        first_sequence_fault(v, i) is None,
    decreases v.len() - i,
{
    if i < v.len() {
        assert(sequence_fault(v, i) is None);
        lemma_no_sequence_fault(v, i + 1);
    }
}

/// Two choices that agree on what is there select the same.
pub proof fn lemma_filter_same<A>(v: Seq<A>, p: spec_fn(A) -> bool, q: spec_fn(A) -> bool)
    requires
        forall|i: int| 0 <= i < v.len() ==> p(#[trigger] v[i]) == q(v[i]),
    ensures
        v.filter(p) == v.filter(q),
    decreases v.len(),
{
    reveal(Seq::filter);
    if v.len() > 0 {
        let d = v.drop_last();
        assert forall|i: int| 0 <= i < d.len() implies p(#[trigger] d[i]) == q(d[i]) by {
            assert(d[i] == v[i]);
        }
        lemma_filter_same(d, p, q);
        assert(p(v[v.len() - 1]) == q(v[v.len() - 1]));
    }
}

/// Selects what is not among these deliveries.
pub open spec fn not_among(items: Seq<DeliveryView>) -> spec_fn(DeliveryView) -> bool {
    |d: DeliveryView| !items.contains(d)
}

/// A handset that is shown deliveries of a lane, and sends the numbers that stand
/// in them back as spoken, consumes exactly the deliveries that it was shown.
pub proof fn law_consuming_what_was_shown_removes_it(
    reg: RegistryView,
    s: RelayView,
    items: Seq<DeliveryView>,
    shown: JsonView,
    lane_id: Seq<char>,
    numbers: Seq<JsonView>,
    body: JsonView,
)
    requires
        sound_deliveries(s),
        s.persistence_failure is None,
        items.len() > 0,
        forall|i: int|
            0 <= i < items.len() ==> s.deliveries.contains(#[trigger] items[i]) && items[i].chat_id
                == lane_id,
        forall|i: int, j: int|
            0 <= i < j < items.len() ==> (#[trigger] items[i]).seq < (#[trigger] items[j]).seq,
        shows_all(shown, items),
        names_shown(numbers, shown),
        has_lane(reg.lanes, lane_id),
        body.get("lane_id"@) == Some(JsonView::Text(lane_id)),
        body.get("sequences"@) == Some(JsonView::List(numbers)),
    ensures
        ({
            let r = consume_turn(reg, s, body);
            &&& r.1 is Write
            &&& r.0.deliveries == s.deliveries.filter(not_among(items))
            &&& r.0 == (RelayView { deliveries: r.0.deliveries, ..s })
            &&& r.1->Write_0.success == consumed_answer(
                lane_id,
                (s.deliveries.len() - r.0.deliveries.len()) as nat,
            )
        }),
{
    let v = s.deliveries;
    lemma_rising(v, s.next_seq);
    lemma_faultless_deliveries(v, s.next_seq, None);
    let spoken = named_sequences(body);
    assert forall|i: int| 0 <= i < items.len() implies #[trigger] numbers[i] == natural_value(
        items[i].seq,
    ) by {
        assert(Some(numbers[i]) == shown->List_0[i].get("seq"@));
        assert(shows(shown->List_0[i], items[i]));
    }
    assert forall|i: int| 0 <= i < items.len() implies #[trigger] spoken[i] == items[i].seq by {
        assert(numbers[i] == natural_value(items[i].seq));
    }
    assert forall|i: int| 0 <= i < items.len() implies 0 < (#[trigger] items[i]).seq
        <= MAX_SAFE_SEQUENCE by {
        let k = choose|k: int| 0 <= k < v.len() && v[k] == items[i];
        assert(crate::relay::snapshots::delivery_fault(v, k, None) is None);
    }
    assert(valid_lane_id(lane_id)) by {
        assert(v.contains(items[0]));
        let k = choose|k: int| 0 <= k < v.len() && v[k] == items[0];
        assert(crate::relay::snapshots::delivery_fault(v, k, None) is None);
    }
    assert forall|k: int| 0 <= k < numbers.len() implies #[trigger] spoken_fault(
        numbers,
        k,
    ) is None by {
        assert(numbers[k] == natural_value(items[k].seq));
        assert forall|j: int| 0 <= j < k implies (#[trigger] numbers[j]).natural() != Some(
            items[k].seq,
        ) by {
            assert(numbers[j] == natural_value(items[j].seq));
            assert(items[j].seq < items[k].seq);
        }
    }
    lemma_no_spoken_fault(numbers, 0);
    assert forall|k: int| 0 <= k < spoken.len() implies #[trigger] sequence_fault(
        spoken,
        k,
    ) is None by {
        assert(spoken[k] == items[k].seq);
        if spoken.take(k).contains(spoken[k]) {
            let j = choose|j: int| 0 <= j < k && spoken.take(k)[j] == spoken[k];
            assert(spoken[j] == items[j].seq);
            assert(items[j].seq < items[k].seq);
        }
    }
    lemma_no_sequence_fault(spoken, 0);
    lemma_few(v, items);
    let p = unspoken(lane_id, spoken);
    let q = not_among(items);
    assert forall|i: int| 0 <= i < v.len() implies p(#[trigger] v[i]) == q(v[i]) by {
        let d = v[i];
        if items.contains(d) {
            let k = choose|k: int| 0 <= k < items.len() && items[k] == d;
            assert(spoken[k] == items[k].seq);
            assert(spoken.contains(d.seq));
        }
        if spoken.contains(d.seq) {
            let k = choose|k: int| 0 <= k < spoken.len() && spoken[k] == d.seq;
            assert(spoken[k] == items[k].seq);
            let m = choose|m: int| 0 <= m < v.len() && v[m] == items[k];
            if m < i {
                assert(v[m].seq < v[i].seq);
            }
            if i < m {
                assert(v[i].seq < v[m].seq);
            }
            assert(items.contains(d));
        }
    }
    lemma_filter_same(v, p, q);
}

/// Deliveries in order that are all from a queue are not more than it holds.
proof fn lemma_few(v: Seq<DeliveryView>, items: Seq<DeliveryView>)
    requires
        forall|i: int| 0 <= i < items.len() ==> v.contains(#[trigger] items[i]),
        forall|i: int, j: int|
            0 <= i < j < items.len() ==> (#[trigger] items[i]).seq < (#[trigger] items[j]).seq,
    ensures
        items.len() <= v.len(),
{
    assert(items.no_duplicates()) by {
        assert forall|i: int, j: int| 0 <= i < items.len() && 0 <= j < items.len() && i != j implies
            items[i] != items[j] by {
            if i < j {
                assert(items[i].seq < items[j].seq);
            } else {
                assert(items[j].seq < items[i].seq);
            }
        }
    }
    items.unique_seq_to_set();
    v.lemma_cardinality_of_set();
    assert forall|d: DeliveryView| items.to_set().contains(d) implies v.to_set().contains(d) by {
        let k = choose|k: int| 0 <= k < items.len() && items[k] == d;
        assert(v.contains(items[k]));
    }
    vstd::set_lib::lemma_len_subset(items.to_set(), v.to_set());
}

// ---- other answers --------------------------------------------------------------

/// An object whose keys are ordinary and in order, and whose values are plain, is
/// found again member by member and reads back.
proof fn lemma_answer(
    members: Seq<(Seq<char>, Seq<char>)>,
    fields: Seq<(Seq<char>, JsonView)>,
    depth: nat,
)
    requires
        written_as(members, fields),
        in_order(fields),
        forall|i: int|
            0 <= i < fields.len() ==> plain_key((#[trigger] fields[i]).0) && plain_value(
                fields[i].1,
                depth,
            ),
    ensures
        is_object_text(object_text(members), JsonView::Object(fields)),
        forall|i: int|
            0 <= i < fields.len() ==> JsonView::Object(fields).get((#[trigger] fields[i]).0) == Some(
                fields[i].1,
            ),
        plain_value(JsonView::Object(fields), depth + 1),
{
    lemma_object(members, fields);
    lemma_ordered_members(fields);
    lemma_plain_object(fields, depth);
}

/// Whether an object shows a lane: every field under its own name.
pub open spec fn shows_lane(v: JsonView, lane: LaneView) -> bool {
    &&& v is Object
    &&& v.get("id"@) == Some(JsonView::Text(lane.id))
    &&& v.get("name"@) == Some(JsonView::Text(lane.name))
    &&& v.get("created_at"@) == Some(JsonView::Text(lane.created_at))
    &&& v.get("last_active"@) == Some(JsonView::Text(lane.last_active))
    &&& has_optional_number(v, "interactions"@, lane.interactions)
}

proof fn lemma_lane_keys()
    ensures
        crate::value::text_before("created_at"@, "id"@),
        crate::value::text_before("id"@, "interactions"@),
        crate::value::text_before("id"@, "last_active"@),
        crate::value::text_before("interactions"@, "last_active"@),
        crate::value::text_before("last_active"@, "name"@),
        crate::value::text_before("name"@, "pending"@),
        crate::value::text_before("pending"@, "title"@),
        "created_at"@ != "interactions"@ && "id"@ != "interactions"@ && "last_active"@
            != "interactions"@ && "name"@ != "interactions"@ && "pending"@ != "interactions"@
            && "title"@ != "interactions"@,
        "created_at"@ != "title"@ && "id"@ != "title"@ && "last_active"@ != "title"@ && "name"@
            != "title"@ && "pending"@ != "title"@,
        plain_key("created_at"@) && plain_key("id"@) && plain_key("interactions"@) && plain_key(
            "last_active"@,
        ) && plain_key("name"@) && plain_key("pending"@) && plain_key("title"@),
{
    reveal_strlit("created_at");
    reveal_strlit("id");
    reveal_strlit("interactions");
    reveal_strlit("last_active");
    reveal_strlit("name");
    reveal_strlit("pending");
    reveal_strlit("title");
    lemma_before("created_at"@, "id"@, 0);
    lemma_before("id"@, "interactions"@, 1);
    lemma_before("id"@, "last_active"@, 0);
    lemma_before("interactions"@, "last_active"@, 0);
    lemma_before("last_active"@, "name"@, 0);
    lemma_before("name"@, "pending"@, 0);
    lemma_before("pending"@, "title"@, 0);
    assert("created_at"@.len() == 10 && "id"@.len() == 2 && "interactions"@.len() == 12
        && "last_active"@.len() == 11 && "name"@.len() == 4 && "pending"@.len() == 7
        && "title"@.len() == 5);
}

/// A lane is written with every field under its own name.
pub proof fn law_lane_is_shown_as_it_is(lane: LaneView) -> (v: JsonView)
    ensures
        is_object_text(lane_json(lane), v),
        shows_lane(v, lane),
        plain_value(v, 1),
{
    lemma_lane_keys();
    let n = match lane.interactions {
        Some(n) => seq![("interactions"@, natural_value(n))],
        None => seq![],
    };
    let f = seq![
        ("created_at"@, JsonView::Text(lane.created_at)),
        ("id"@, JsonView::Text(lane.id)),
    ] + n + seq![
        ("last_active"@, JsonView::Text(lane.last_active)),
        ("name"@, JsonView::Text(lane.name)),
    ];
    let members = seq![
        ("created_at"@, json_string(lane.created_at)),
        ("id"@, json_string(lane.id)),
    ] + optional_number("interactions"@, lane.interactions) + seq![
        ("last_active"@, json_string(lane.last_active)),
        ("name"@, json_string(lane.name)),
    ];
    assert(written_as(members, f));
    assert(in_order(f)) by {
        assert forall|i: int| 0 < i < f.len() implies crate::value::text_before(
            f[i - 1].0,
            (#[trigger] f[i]).0,
        ) by {
            if i == 1 || i == 2 || i == 3 || i == 4 {
            }
        }
    }
    assert forall|i: int| 0 <= i < f.len() implies plain_key((#[trigger] f[i]).0) && plain_value(
        f[i].1,
        0,
    ) by {
        if i == 0 || i == 1 || i == 2 || i == 3 || i == 4 {
        }
    }
    lemma_answer(members, f, 0);
    assert(f[0].0 == "created_at"@ && f[1].0 == "id"@);
    assert(f[f.len() - 2].0 == "last_active"@ && f[f.len() - 1].0 == "name"@);
    if lane.interactions is Some {
        assert(f[2].0 == "interactions"@);
    } else {
        lemma_no_member(f, "interactions"@, 0);
    }
    JsonView::Object(f)
}

/// The answer with a lane says that it went well, and shows the lane.
pub proof fn law_lane_answer_shows_the_lane(lane: LaneView) -> (v: JsonView)
    ensures
        answers_with(lane_ok(lane), 200, v),
        v.get("ok"@) == Some(JsonView::Bool(true)),
        v.get("lane"@) is Some,
        shows_lane(v.get("lane"@)->0, lane),
        plain_value(v, 2),
{
    let shown = law_lane_is_shown_as_it_is(lane);
    let f = seq![("lane"@, shown), ("ok"@, JsonView::Bool(true))];
    let members = seq![("lane"@, lane_json(lane)), ("ok"@, json_bool(true))];
    assert(written_as(members, f));
    reveal_strlit("lane");
    reveal_strlit("ok");
    lemma_before("lane"@, "ok"@, 0);
    assert(plain_key("lane"@) && plain_key("ok"@));
    lemma_answer(members, f, 1);
    assert(f[0].0 == "lane"@ && f[1].0 == "ok"@);
    JsonView::Object(f)
}

/// A refusal holds its reason.
pub proof fn law_refusal_holds_its_reason(status: u16, error: Seq<char>) -> (v: JsonView)
    ensures
        answers_with(refusal(status, error), status, v),
        v.get("error"@) == Some(JsonView::Text(error)),
        plain_value(v, 1),
{
    let f = seq![("error"@, JsonView::Text(error))];
    let members = seq![("error"@, json_string(error))];
    assert(written_as(members, f));
    reveal_strlit("error");
    assert(plain_key("error"@));
    lemma_answer(members, f, 0);
    assert(f[0].0 == "error"@);
    JsonView::Object(f)
}

/// A spoken answer holds its words.
pub proof fn law_spoken_answer_holds_its_words(reply: Seq<char>) -> (v: JsonView)
    ensures
        answers_with(spoken_ok(reply), 200, v),
        v.get("reply"@) == Some(JsonView::Text(reply)),
        plain_value(v, 1),
{
    let f = seq![("reply"@, JsonView::Text(reply))];
    let members = seq![("reply"@, json_string(reply))];
    assert(written_as(members, f));
    reveal_strlit("reply");
    assert(plain_key("reply"@));
    lemma_answer(members, f, 0);
    assert(f[0].0 == "reply"@);
    JsonView::Object(f)
}

/// Success and nothing more says that it went well.
pub proof fn law_bare_answer_says_ok() -> (v: JsonView)
    ensures
        answers_with(bare_ok(), 200, v),
        v.get("ok"@) == Some(JsonView::Bool(true)),
        plain_value(v, 1),
{
    let f = seq![("ok"@, JsonView::Bool(true))];
    let members = seq![("ok"@, json_bool(true))];
    assert(written_as(members, f));
    reveal_strlit("ok");
    assert(plain_key("ok"@));
    lemma_answer(members, f, 0);
    assert(f[0].0 == "ok"@);
    JsonView::Object(f)
}

/// The answer to a counted report holds its identifier, and whether it was
/// counted before.
pub proof fn law_counted_answer_names_the_report(id: Seq<char>, duplicate: bool) -> (v: JsonView)
    ensures
        answers_with(counted(id, duplicate), 200, v),
        v.get("ok"@) == Some(JsonView::Bool(true)),
        v.get("id"@) == Some(JsonView::Text(id)),
        v.get("duplicate"@) == Some(JsonView::Bool(duplicate)),
        plain_value(v, 1),
{
    let f = seq![
        ("duplicate"@, JsonView::Bool(duplicate)),
        ("id"@, JsonView::Text(id)),
        ("ok"@, JsonView::Bool(true)),
    ];
    let members = seq![
        ("duplicate"@, json_bool(duplicate)),
        ("id"@, json_string(id)),
        ("ok"@, json_bool(true)),
    ];
    assert(written_as(members, f));
    reveal_strlit("duplicate");
    reveal_strlit("id");
    reveal_strlit("ok");
    lemma_before("duplicate"@, "id"@, 0);
    lemma_before("id"@, "ok"@, 0);
    assert(plain_key("duplicate"@) && plain_key("id"@) && plain_key("ok"@));
    lemma_answer(members, f, 0);
    assert(f[0].0 == "duplicate"@ && f[1].0 == "id"@ && f[2].0 == "ok"@);
    JsonView::Object(f)
}

/// The answer to consumed deliveries holds their lane and their number.
pub proof fn law_consumed_answer_counts_them(lane_id: Seq<char>, count: u64) -> (v: JsonView)
    ensures
        answers_with(consumed_answer(lane_id, count as nat), 200, v),
        v.get("ok"@) == Some(JsonView::Bool(true)),
        v.get("lane_id"@) == Some(JsonView::Text(lane_id)),
        v.get("count"@) == Some(natural_value(count)),
        plain_value(v, 1),
{
    let f = seq![
        ("count"@, natural_value(count)),
        ("lane_id"@, JsonView::Text(lane_id)),
        ("ok"@, JsonView::Bool(true)),
    ];
    let members = seq![
        ("count"@, decimal(count as nat)),
        ("lane_id"@, json_string(lane_id)),
        ("ok"@, json_bool(true)),
    ];
    assert(written_as(members, f));
    reveal_strlit("count");
    reveal_strlit("lane_id");
    reveal_strlit("ok");
    lemma_before("count"@, "lane_id"@, 0);
    lemma_before("lane_id"@, "ok"@, 0);
    assert(plain_key("count"@) && plain_key("lane_id"@) && plain_key("ok"@));
    lemma_answer(members, f, 0);
    assert(f[0].0 == "count"@ && f[1].0 == "lane_id"@ && f[2].0 == "ok"@);
    JsonView::Object(f)
}

/// The answer to a message that was taken holds its identifier.
pub proof fn law_message_answer_names_it(s: RelayView, message_id: Seq<char>) -> (v: JsonView)
    ensures
        answers_with(message_answer(s, message_id, None), 200, v),
        v.get("ok"@) == Some(JsonView::Bool(true)),
        v.get("message_id"@) == Some(JsonView::Text(message_id)),
        plain_value(v, 1),
{
    let f = seq![("message_id"@, JsonView::Text(message_id)), ("ok"@, JsonView::Bool(true))];
    let members = seq![("message_id"@, json_string(message_id)), ("ok"@, json_bool(true))];
    assert(written_as(members, f));
    reveal_strlit("message_id");
    reveal_strlit("ok");
    lemma_before("message_id"@, "ok"@, 0);
    assert(plain_key("message_id"@) && plain_key("ok"@));
    lemma_answer(members, f, 0);
    assert(f[0].0 == "message_id"@ && f[1].0 == "ok"@);
    JsonView::Object(f)
}

/// The answer to a question for the newest sequence holds that sequence.
pub proof fn law_head_answer_holds_the_newest(s: RelayView) -> (v: JsonView)
    requires
        s.persistence_failure is None,
        s.next_seq <= MAX_SAFE_SEQUENCE,
    ensures
        answers_with(head_answer(s), 200, v),
        v.get("latest"@) == Some(natural_value(s.next_seq)),
        plain_value(v, 1),
{
    let f = seq![("latest"@, natural_value(s.next_seq))];
    let members = seq![("latest"@, decimal(s.next_seq as nat))];
    assert(written_as(members, f));
    reveal_strlit("latest");
    assert(plain_key("latest"@));
    lemma_answer(members, f, 0);
    assert(f[0].0 == "latest"@);
    JsonView::Object(f)
}

/// The answer with the deliveries that wait for the active lane holds that lane,
/// exactly its deliveries, their number, and the revision.
pub proof fn law_pending_answer_holds_the_deliveries(d: DaemonView, relay: RelayView) -> (r: (
    JsonView,
    Seq<DeliveryView>,
))
    requires
        relay.deliveries.len() <= u64::MAX,
    ensures
        answers_with(pending_answer(d, relay), 200, r.0),
        r.0.get("count"@) == Some(natural_value(r.1.len() as u64)),
        r.0.get("items"@) is Some,
        shows_all(r.0.get("items"@)->0, r.1),
        r.0.get("lane_id"@) == Some(JsonView::Text(active_lane(d.reg).id)),
        r.0.get("revision"@) == Some(natural_value(d.revision)),
        plain_value(r.0, 3),
        forall|x: DeliveryView| #[trigger]
            r.1.contains(x) <==> relay.deliveries.contains(x) && x.chat_id == active_lane(d.reg).id,
{
    let lane_id = active_lane(d.reg).id;
    let revision = d.revision;
    let items = relay.deliveries.filter(of_lane(lane_id));
    lemma_filter_holds(relay.deliveries, of_lane(lane_id));
    crate::relay::snapshots::lemma_filter_len(relay.deliveries, of_lane(lane_id));
    let list = law_deliveries_are_shown_in_order(items);
    let f = seq![
        ("count"@, natural_value(items.len() as u64)),
        ("items"@, list),
        ("lane_id"@, JsonView::Text(lane_id)),
        ("revision"@, natural_value(revision)),
    ];
    let members = seq![
        ("count"@, decimal(items.len())),
        ("items"@, handset_deliveries(items)),
        ("lane_id"@, json_string(lane_id)),
        ("revision"@, decimal(revision as nat)),
    ];
    assert(written_as(members, f));
    reveal_strlit("count");
    reveal_strlit("items");
    reveal_strlit("lane_id");
    reveal_strlit("revision");
    lemma_before("count"@, "items"@, 0);
    lemma_before("items"@, "lane_id"@, 0);
    lemma_before("lane_id"@, "revision"@, 0);
    assert(plain_key("count"@) && plain_key("items"@) && plain_key("lane_id"@) && plain_key(
        "revision"@,
    ));
    lemma_answer(members, f, 2);
    assert(f[0].0 == "count"@ && f[1].0 == "items"@ && f[2].0 == "lane_id"@ && f[3].0
        == "revision"@);
    (JsonView::Object(f), items)
}

// ---- the state ------------------------------------------------------------------

/// Whether an object shows a lane with what waits for it and its title.
pub open spec fn shows_lane_state(
    v: JsonView,
    lane: LaneView,
    waiting: nat,
    title: Option<Seq<char>>,
) -> bool {
    &&& shows_lane(v, lane)
    &&& v.get("pending"@) is Some
    &&& v.get("pending"@)->0.natural() == Some(waiting as u64)
    &&& has_optional_text(v, "title"@, title)
}

spec fn lane_state_fields(
    lane: LaneView,
    waiting: nat,
    title: Option<Seq<char>>,
) -> Seq<(Seq<char>, JsonView)> {
    let n = match lane.interactions {
        Some(n) => seq![("interactions"@, natural_value(n))],
        None => seq![],
    };
    let t = match title {
        Some(t) => seq![("title"@, JsonView::Text(t))],
        None => seq![],
    };
    seq![
        ("created_at"@, JsonView::Text(lane.created_at)),
        ("id"@, JsonView::Text(lane.id)),
    ] + n + seq![
        ("last_active"@, JsonView::Text(lane.last_active)),
        ("name"@, JsonView::Text(lane.name)),
        ("pending"@, natural_value(waiting as u64)),
    ] + t
}

proof fn lemma_lane_state(
    lane: LaneView,
    titles: Seq<(Seq<char>, Seq<char>)>,
    relay: RelayView,
)
    requires
        relay.deliveries.len() <= u64::MAX,
    ensures
        ({
            let waiting = relay.deliveries.filter(of_lane(lane.id)).len();
            let v = JsonView::Object(
                lane_state_fields(lane, waiting, title_of(titles, lane.id)),
            );
            &&& shown_lane(lane, titles, relay) == json_text(v)
            &&& shows_lane_state(v, lane, waiting, title_of(titles, lane.id))
            &&& plain_value(v, 1)
        }),
{
    lemma_lane_keys();
    let waiting = relay.deliveries.filter(of_lane(lane.id)).len();
    crate::relay::snapshots::lemma_filter_len(relay.deliveries, of_lane(lane.id));
    let title = title_of(titles, lane.id);
    let f = lane_state_fields(lane, waiting, title);
    let members = seq![
        ("created_at"@, json_string(lane.created_at)),
        ("id"@, json_string(lane.id)),
    ] + optional_number("interactions"@, lane.interactions) + seq![
        ("last_active"@, json_string(lane.last_active)),
        ("name"@, json_string(lane.name)),
        ("pending"@, decimal(waiting)),
    ] + optional_text("title"@, title);
    assert(written_as(members, f));
    assert(in_order(f)) by {
        assert forall|i: int| 0 < i < f.len() implies crate::value::text_before(
            f[i - 1].0,
            (#[trigger] f[i]).0,
        ) by {
            if i == 1 || i == 2 || i == 3 || i == 4 || i == 5 || i == 6 {
            }
        }
    }
    assert forall|i: int| 0 <= i < f.len() implies plain_key((#[trigger] f[i]).0) && plain_value(
        f[i].1,
        0,
    ) by {
        if i == 0 || i == 1 || i == 2 || i == 3 || i == 4 || i == 5 || i == 6 {
        }
    }
    lemma_answer(members, f, 0);
    let k: int = if lane.interactions is Some {
        3
    } else {
        2
    };
    assert(f[0].0 == "created_at"@ && f[1].0 == "id"@);
    assert(f[k].0 == "last_active"@ && f[k + 1].0 == "name"@ && f[k + 2].0 == "pending"@);
    if lane.interactions is Some {
        assert(f[2].0 == "interactions"@);
    } else {
        lemma_no_member(f, "interactions"@, 0);
    }
    if title is Some {
        assert(f[k + 3].0 == "title"@);
    } else {
        lemma_no_member(f, "title"@, 0);
    }
}

/// The state that the handset shows holds the selection, the revision, and every
/// lane in its order, each as it is and with the number of deliveries that wait
/// for it.
pub proof fn law_state_answer_shows_every_lane(
    d: DaemonView,
    relay: RelayView,
    titles: Seq<(Seq<char>, Seq<char>)>,
) -> (v: JsonView)
    requires
        relay.deliveries.len() <= u64::MAX,
    ensures
        is_object_text(shown_state(d, relay, titles), v),
        v.get("active"@) == Some(JsonView::Text(active_lane(d.reg).name)),
        v.get("active_id"@) == Some(JsonView::Text(d.reg.active_id)),
        v.get("previous_id"@) == Some(JsonView::Text(d.reg.previous_id)),
        v.get("revision"@) == Some(natural_value(d.revision)),
        v.get("lanes"@) is Some && v.get("lanes"@)->0 is List,
        v.get("lanes"@)->0->List_0.len() == d.reg.lanes.len(),
        forall|i: int|
            0 <= i < d.reg.lanes.len() ==> shows_lane_state(
                #[trigger] v.get("lanes"@)->0->List_0[i],
                d.reg.lanes[i],
                relay.deliveries.filter(of_lane(d.reg.lanes[i].id)).len(),
                title_of(titles, d.reg.lanes[i].id),
            ),
        plain_value(v, 3),
{
    let lanes = d.reg.lanes;
    let texts = Seq::new(lanes.len(), |i: int| shown_lane(lanes[i], titles, relay));
    let trees = Seq::new(
        lanes.len(),
        |i: int|
            JsonView::Object(
                lane_state_fields(
                    lanes[i],
                    relay.deliveries.filter(of_lane(lanes[i].id)).len(),
                    title_of(titles, lanes[i].id),
                ),
            ),
    );
    assert forall|i: int| 0 <= i < lanes.len() implies #[trigger] texts[i] == json_text(trees[i])
        && shows_lane_state(
        trees[i],
        lanes[i],
        relay.deliveries.filter(of_lane(lanes[i].id)).len(),
        title_of(titles, lanes[i].id),
    ) && plain_value(trees[i], 1) by {
        lemma_lane_state(lanes[i], titles, relay);
    }
    lemma_list(texts, trees);
    let list = JsonView::List(trees);
    assert(plain_value(list, 2)) by {
        assert forall|i: int| 0 <= i < trees.len() implies plain_value(#[trigger] trees[i], 1) by {
            assert(texts[i] == json_text(trees[i]));
        }
    }
    let f = seq![
        ("active"@, JsonView::Text(active_lane(d.reg).name)),
        ("active_id"@, JsonView::Text(d.reg.active_id)),
        ("lanes"@, list),
        ("previous_id"@, JsonView::Text(d.reg.previous_id)),
        ("revision"@, natural_value(d.revision)),
    ];
    let shown = Seq::new(d.reg.lanes.len(), |i: int| shown_lane(d.reg.lanes[i], titles, relay));
    assert(shown =~= texts);
    let members = seq![
        ("active"@, json_string(active_lane(d.reg).name)),
        ("active_id"@, json_string(d.reg.active_id)),
        ("lanes"@, array_text(shown)),
        ("previous_id"@, json_string(d.reg.previous_id)),
        ("revision"@, decimal(d.revision as nat)),
    ];
    assert(shown_state(d, relay, titles) == object_text(members));
    assert(written_as(members, f));
    lemma_state_keys();
    lemma_answer(members, f, 2);
    assert(f[0].0 == "active"@ && f[1].0 == "active_id"@ && f[2].0 == "lanes"@ && f[3].0
        == "previous_id"@ && f[4].0 == "revision"@);
    assert forall|i: int| 0 <= i < lanes.len() implies shows_lane_state(
        #[trigger] trees[i],
        lanes[i],
        relay.deliveries.filter(of_lane(lanes[i].id)).len(),
        title_of(titles, lanes[i].id),
    ) by {
        assert(texts[i] == json_text(trees[i]));
    }
    JsonView::Object(f)
}

proof fn lemma_state_keys()
    ensures
        crate::value::text_before("active"@, "active_id"@),
        crate::value::text_before("active_id"@, "lanes"@),
        crate::value::text_before("lanes"@, "previous_id"@),
        crate::value::text_before("previous_id"@, "revision"@),
        plain_key("active"@) && plain_key("active_id"@) && plain_key("lanes"@) && plain_key(
            "previous_id"@,
        ) && plain_key("revision"@),
{
    reveal_strlit("active");
    reveal_strlit("active_id");
    reveal_strlit("lanes");
    reveal_strlit("previous_id");
    reveal_strlit("revision");
    lemma_before("active"@, "active_id"@, 6);
    lemma_before("active_id"@, "lanes"@, 0);
    lemma_before("lanes"@, "previous_id"@, 0);
    lemma_before("previous_id"@, "revision"@, 0);
}

} // verus!
