//! Texts of JSON objects and lists as values: what a reader finds under each key
//! of an object that was written member by member.
use vstd::prelude::*;

use crate::json::{array_text, object_text};
use crate::value::{
    differs_at, field_texts, json_text, list_texts, member_from, plain_key, plain_value,
    text_before, JsonView,
};

verus! {

/// Whether a run of members, as texts, holds these values under these keys.
pub open spec fn written_as(
    members: Seq<(Seq<char>, Seq<char>)>,
    fields: Seq<(Seq<char>, JsonView)>,
) -> bool {
    &&& members.len() == fields.len()
    &&& forall|i: int|
        0 <= i < fields.len() ==> (#[trigger] members[i]).0 == fields[i].0 && members[i].1
            == json_text(fields[i].1)
}

proof fn lemma_field_texts(fields: Seq<(Seq<char>, JsonView)>, n: nat)
    requires
        n <= fields.len(),
    ensures
        field_texts(fields, n).len() == n,
        forall|i: int|
            0 <= i < n ==> #[trigger] field_texts(fields, n)[i] == (
                fields[i].0,
                json_text(fields[i].1),
            ),
    decreases n,
{
    if n > 0 {
        lemma_field_texts(fields, (n - 1) as nat);
    }
}

proof fn lemma_list_texts(items: Seq<JsonView>, n: nat)
    requires
        n <= items.len(),
    ensures
        list_texts(items, n).len() == n,
        forall|i: int| 0 <= i < n ==> #[trigger] list_texts(items, n)[i] == json_text(items[i]),
    decreases n,
{
    if n > 0 {
        lemma_list_texts(items, (n - 1) as nat);
    }
}

/// An object written member by member is the text of the object with these
/// values.
pub proof fn lemma_object(
    members: Seq<(Seq<char>, Seq<char>)>,
    fields: Seq<(Seq<char>, JsonView)>,
)
    requires
        written_as(members, fields),
    ensures
        object_text(members) == json_text(JsonView::Object(fields)),
{
    lemma_field_texts(fields, fields.len());
    assert(members =~= field_texts(fields, fields.len())) by {
        assert forall|i: int| 0 <= i < members.len() implies members[i] == field_texts(
            fields,
            fields.len(),
        )[i] by {
            assert(members[i].0 == fields[i].0);
        }
    }
}

/// A list written element by element is the text of the list of these values.
pub proof fn lemma_list(texts: Seq<Seq<char>>, items: Seq<JsonView>)
    requires
        texts.len() == items.len(),
        forall|i: int| 0 <= i < items.len() ==> #[trigger] texts[i] == json_text(items[i]),
    ensures
        array_text(texts) == json_text(JsonView::List(items)),
{
    lemma_list_texts(items, items.len());
    assert(texts =~= list_texts(items, items.len()));
}

/// The first member with a key is the one that is found.
pub proof fn lemma_member(fields: Seq<(Seq<char>, JsonView)>, key: Seq<char>, from: int, at: int)
    requires
        0 <= from <= at < fields.len(),
        fields[at].0 == key,
        forall|k: int| from <= k < at ==> (#[trigger] fields[k]).0 != key,
    ensures
        member_from(fields, key, from) == Some(fields[at].1),
    decreases at - from,
{
    if from < at {
        assert(fields[from].0 != key);
        lemma_member(fields, key, from + 1, at);
    }
}

/// A key that no member has is not found.
pub proof fn lemma_no_member(fields: Seq<(Seq<char>, JsonView)>, key: Seq<char>, from: int)
    requires
        0 <= from <= fields.len(),
        forall|k: int| from <= k < fields.len() ==> (#[trigger] fields[k]).0 != key,
    ensures
        member_from(fields, key, from) is None,
    decreases fields.len() - from,
{
    if from < fields.len() {
        assert(fields[from].0 != key);
        lemma_no_member(fields, key, from + 1);
    }
}

/// `a` comes before `b` where the first difference is at `k`.
pub proof fn lemma_before(a: Seq<char>, b: Seq<char>, k: int)
    requires
        0 <= k <= a.len(),
        k < b.len(),
        forall|i: int| 0 <= i < k ==> a[i] == b[i],
        k < a.len() ==> (a[k] as u32) < (b[k] as u32),
    ensures
        text_before(a, b),
        a != b,
{
    assert(a.take(k) =~= b.take(k));
    assert(differs_at(a, b, k));
}

/// The order of texts goes on.
pub proof fn lemma_before_on(a: Seq<char>, b: Seq<char>, c: Seq<char>)
    requires
        text_before(a, b),
        text_before(b, c),
    ensures
        text_before(a, c),
        a != c,
{
    let i = choose|k: int| #[trigger] differs_at(a, b, k);
    let j = choose|k: int| #[trigger] differs_at(b, c, k);
    let k = if i <= j {
        i
    } else {
        j
    };
    assert forall|n: int| 0 <= n < k implies a[n] == c[n] by {
        assert(a.take(i)[n] == b.take(i)[n]);
        assert(b.take(j)[n] == c.take(j)[n]);
    }
    if i < j {
        assert(b.take(j)[i] == c.take(j)[i]);
    }
    if j < i {
        assert(a.take(i)[j] == b.take(i)[j]);
    }
    lemma_before(a, c, k);
}

/// Whether the keys come in their order, none twice.
pub open spec fn in_order(fields: Seq<(Seq<char>, JsonView)>) -> bool {
    forall|i: int|
        0 < i < fields.len() ==> text_before(fields[i - 1].0, (#[trigger] fields[i]).0)
}

/// Keys in their order are all different.
pub proof fn lemma_ordered_keys(fields: Seq<(Seq<char>, JsonView)>, i: int, j: int)
    requires
        in_order(fields),
        0 <= i < j < fields.len(),
    ensures
        text_before(fields[i].0, fields[j].0),
        fields[i].0 != fields[j].0,
    decreases j - i,
{
    assert(text_before(fields[j - 1].0, fields[j].0));
    if i < j - 1 {
        lemma_ordered_keys(fields, i, j - 1);
        lemma_before_on(fields[i].0, fields[j - 1].0, fields[j].0);
    } else {
        let a = fields[i].0;
        let b = fields[j].0;
        let k = choose|k: int| #[trigger] differs_at(a, b, k);
        assert(a != b);
    }
}

/// In an object whose keys are in order every member is found under its key.
pub proof fn lemma_ordered_members(fields: Seq<(Seq<char>, JsonView)>)
    requires
        in_order(fields),
    ensures
        forall|i: int|
            0 <= i < fields.len() ==> JsonView::Object(fields).get((#[trigger] fields[i]).0) == Some(
                fields[i].1,
            ),
{
    assert forall|i: int| 0 <= i < fields.len() implies JsonView::Object(fields).get(
        (#[trigger] fields[i]).0,
    ) == Some(fields[i].1) by {
        assert forall|k: int| 0 <= k < i implies (#[trigger] fields[k]).0 != fields[i].0 by {
            lemma_ordered_keys(fields, k, i);
        }
        lemma_member(fields, fields[i].0, 0, i);
    }
}

/// An object is plain where its keys are ordinary and in order, and its values
/// are plain.
pub proof fn lemma_plain_object(fields: Seq<(Seq<char>, JsonView)>, depth: nat)
    requires
        in_order(fields),
        forall|i: int|
            0 <= i < fields.len() ==> plain_key((#[trigger] fields[i]).0) && plain_value(
                fields[i].1,
                depth,
            ),
    ensures
        plain_value(JsonView::Object(fields), depth + 1),
{
    assert((depth + 1 - 1) as nat == depth);
}

} // verus!
