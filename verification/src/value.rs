//! JSON values as a tree: reading a text into one, looking inside, comparing,
//! and writing one out.
use vstd::prelude::*;
use vstd::string::*;

use crate::json::{
    array_of, array_text, json_bool, json_string, member, object_text, quote,
};
use crate::text::{decimal, decimal_text, joined, same_text, views};

verus! {

/// A JSON value. An object's members are in the order of their keys.
#[derive(Debug)]
pub enum Json {
    Null,
    Bool(bool),
    /// A number as it is written, and its value where it is a natural number
    /// of 64 bits.
    Number(String, Option<u64>),
    Text(String),
    List(Vec<Json>),
    Object(Vec<(String, Json)>),
}

/// A JSON value.
pub enum JsonView {
    Null,
    Bool(bool),
    Number(Seq<char>, Option<u64>),
    Text(Seq<char>),
    List(Seq<JsonView>),
    Object(Seq<(Seq<char>, JsonView)>),
}

/// The value of a tree.
pub open spec fn json_view(v: Json) -> JsonView
    decreases v,
{
    match v {
        Json::Null => JsonView::Null,
        Json::Bool(b) => JsonView::Bool(b),
        Json::Number(t, n) => JsonView::Number(t@, n),
        Json::Text(t) => JsonView::Text(t@),
        Json::List(items) => JsonView::List(
            Seq::new(
                items@.len(),
                |i: int|
                    if 0 <= i < items@.len() {
                        json_view(items@[i])
                    } else {
                        JsonView::Null
                    },
            ),
        ),
        Json::Object(fields) => JsonView::Object(
            Seq::new(
                fields@.len(),
                |i: int|
                    if 0 <= i < fields@.len() {
                        (fields@[i].0@, json_view(fields@[i].1))
                    } else {
                        (Seq::<char>::empty(), JsonView::Null)
                    },
            ),
        ),
    }
}

impl View for Json {
    type V = JsonView;

    open spec fn view(&self) -> JsonView {
        json_view(*self)
    }
}

/// The text of a value: no white space, members in their order.
pub open spec fn json_text(v: JsonView) -> Seq<char>
    decreases v, 0nat,
{
    match v {
        JsonView::Null => "null"@,
        JsonView::Bool(b) => json_bool(b),
        JsonView::Number(t, _) => t,
        JsonView::Text(t) => json_string(t),
        JsonView::List(items) => array_text(list_texts(items, items.len())),
        JsonView::Object(fields) => object_text(field_texts(fields, fields.len())),
    }
}

/// The texts of the first `n` elements.
pub open spec fn list_texts(items: Seq<JsonView>, n: nat) -> Seq<Seq<char>>
    decreases items, n,
{
    if n == 0 || n > items.len() {
        Seq::empty()
    } else {
        list_texts(items, (n - 1) as nat).push(json_text(items[n - 1]))
    }
}

/// The keys and value texts of the first `n` members.
pub open spec fn field_texts(fields: Seq<(Seq<char>, JsonView)>, n: nat) -> Seq<
    (Seq<char>, Seq<char>),
>
    decreases fields, n,
{
    if n == 0 || n > fields.len() {
        Seq::empty()
    } else {
        field_texts(fields, (n - 1) as nat).push((fields[n - 1].0, json_text(fields[n - 1].1)))
    }
}

// ---- reading ------------------------------------------------------------------

/// A parsed value of `serde_json`.
#[verifier::external_type_specification]
#[verifier::external_body]
pub struct ExValue(serde_json::Value);

/// What a parsed value of `serde_json` holds.
pub uninterp spec fn value_tree(v: serde_json::Value) -> JsonView;

/// The value that a text stands for, or what `serde_json` says is wrong with it.
pub uninterp spec fn json_parsed(raw: Seq<char>) -> Result<JsonView, Seq<char>>;

/// The value that a text stands for, nothing where it is no JSON.
pub open spec fn json_read(raw: Seq<char>) -> Option<JsonView> {
    match json_parsed(raw) {
        Ok(v) => Some(v),
        Err(_) => None,
    }
}

/// Whether `a` comes before `b` in the order of texts: at the first difference
/// it ends, or has the smaller character.
pub open spec fn text_before(a: Seq<char>, b: Seq<char>) -> bool {
    exists|k: int| #[trigger] differs_at(a, b, k)
}

/// Whether `a` and `b` agree up to `k`, and `a` comes first there.
pub open spec fn differs_at(a: Seq<char>, b: Seq<char>, k: int) -> bool {
    &&& 0 <= k <= a.len()
    &&& k < b.len()
    &&& a.take(k) == b.take(k)
    &&& (k < a.len() ==> (a[k] as u32) < (b[k] as u32))
}

/// Whether a member's key is an ordinary one. `serde_json` gives keys of its own
/// that begin with a dollar sign a meaning.
pub open spec fn plain_key(key: Seq<char>) -> bool {
    key.len() == 0 || key[0] != '$'
}

/// Values that are written and read back without loss: no fractions and no
/// negative numbers, members with ordinary keys in the order of their keys and
/// none twice, and lists and objects at most `depth` deep.
pub open spec fn plain_value(v: JsonView, depth: nat) -> bool
    decreases v,
{
    match v {
        JsonView::Null => true,
        JsonView::Bool(_) => true,
        JsonView::Number(t, n) => n is Some && t == decimal(n->0 as nat),
        JsonView::Text(_) => true,
        JsonView::List(items) => depth > 0 && forall|i: int|
            0 <= i < items.len() ==> plain_value(#[trigger] items[i], (depth - 1) as nat),
        JsonView::Object(fields) => {
            &&& depth > 0
            &&& forall|i: int|
                0 <= i < fields.len() ==> plain_key((#[trigger] fields[i]).0) && plain_value(
                    fields[i].1,
                    (depth - 1) as nat,
                )
            &&& forall|i: int|
                0 < i < fields.len() ==> text_before(fields[i - 1].0, (#[trigger] fields[i]).0)
        },
    }
}

/// A value that is plain to some depth is plain to every greater one.
pub proof fn lemma_plain_deeper(v: JsonView, depth: nat, deeper: nat)
    requires
        plain_value(v, depth),
        depth <= deeper,
    ensures
        plain_value(v, deeper),
    decreases v,
{
    match v {
        JsonView::List(items) => {
            assert forall|i: int| 0 <= i < items.len() implies plain_value(
                #[trigger] items[i],
                (deeper - 1) as nat,
            ) by {
                lemma_plain_deeper(items[i], (depth - 1) as nat, (deeper - 1) as nat);
            }
        },
        JsonView::Object(fields) => {
            assert forall|i: int| 0 <= i < fields.len() implies plain_key(
                (#[trigger] fields[i]).0,
            ) && plain_value(fields[i].1, (deeper - 1) as nat) by {
                lemma_plain_deeper(fields[i].1, (depth - 1) as nat, (deeper - 1) as nat);
            }
        },
        _ => {},
    }
}

/// How deep lists and objects may be in a text that is read.
pub const MAX_JSON_DEPTH: usize = 127;

/// `serde_json::from_str` into a `serde_json::Value`, its error in words
/// (`Error`'s `Display`). What it gives is named; of the text of a plain value
/// it gives that value back.
#[verifier::external_body]
fn parse_value(raw: &str) -> (r: Result<serde_json::Value, String>)
    ensures
        match r {
            Ok(v) => json_parsed(raw@) == Ok::<JsonView, Seq<char>>(value_tree(v)),
            Err(e) => json_parsed(raw@) == Err::<JsonView, Seq<char>>(e@),
        },
        forall|v: JsonView|
            plain_value(v, MAX_JSON_DEPTH as nat) && raw@ == #[trigger] json_text(v) ==> (r is Ok
                && value_tree(r->Ok_0) == v),
{
    match serde_json::from_str(raw) {
        Ok(v) => Ok(v),
        Err(e) => Err(e.to_string()),
    }
}

/// The variants of a `serde_json::Value`, one for one. A number keeps its text
/// (`Number`'s `Display`) and what `as_u64` says of it.
#[verifier::external_body]
fn tree_of(v: serde_json::Value) -> (r: Json)
    ensures
        r@ == value_tree(v),
{
    match v {
        serde_json::Value::Null => Json::Null,
        serde_json::Value::Bool(b) => Json::Bool(b),
        serde_json::Value::Number(n) => Json::Number(n.to_string(), n.as_u64()),
        serde_json::Value::String(s) => Json::Text(s),
        serde_json::Value::Array(a) => Json::List(a.into_iter().map(tree_of).collect()),
        serde_json::Value::Object(m) => Json::Object(
            m.into_iter().map(|(k, v)| (k, tree_of(v))).collect(),
        ),
    }
}

/// The value that a text stands for, or what is wrong with it. A plain value is
/// read back from its own text.
pub fn parse_json(raw: &str) -> (r: Result<Json, String>)
    ensures
        match r {
            Ok(v) => json_parsed(raw@) == Ok::<JsonView, Seq<char>>(v@),
            Err(e) => json_parsed(raw@) == Err::<JsonView, Seq<char>>(e@),
        },
        forall|v: JsonView|
            plain_value(v, MAX_JSON_DEPTH as nat) && raw@ == #[trigger] json_text(v) ==> reads_back(
                v,
            ),
{
    match parse_value(raw) {
        Ok(v) => Ok(tree_of(v)),
        Err(e) => Err(e),
    }
}

/// The value that a text stands for, nothing where it is no JSON. A plain value
/// is read back from its own text.
pub fn read_json(raw: &str) -> (r: Option<Json>)
    ensures
        match r {
            Some(v) => json_read(raw@) == Some(v@),
            None => json_read(raw@) is None,
        },
        forall|v: JsonView|
            plain_value(v, MAX_JSON_DEPTH as nat) && raw@ == #[trigger] json_text(v) ==> reads_back(
                v,
            ),
{
    match parse_json(raw) {
        Ok(v) => Some(v),
        Err(_) => None,
    }
}

// ---- looking inside -------------------------------------------------------------

/// The first member with this key from `i` on.
pub open spec fn member_from(fields: Seq<(Seq<char>, JsonView)>, key: Seq<char>, i: int) -> Option<
    JsonView,
>
    decreases fields.len() - i,
{
    if i < 0 || i >= fields.len() {
        None
    } else if fields[i].0 == key {
        Some(fields[i].1)
    } else {
        member_from(fields, key, i + 1)
    }
}

impl JsonView {
    /// The member with this key, nothing where the value is no object or has
    /// none.
    pub open spec fn get(self, key: Seq<char>) -> Option<JsonView> {
        match self {
            JsonView::Object(fields) => member_from(fields, key, 0),
            _ => None,
        }
    }

    /// The member with this key, null where there is none.
    pub open spec fn field(self, key: Seq<char>) -> JsonView {
        match self.get(key) {
            Some(v) => v,
            None => JsonView::Null,
        }
    }

    /// The text of the member with this key, empty where it is none.
    pub open spec fn text_or_empty(self, key: Seq<char>) -> Seq<char> {
        match self.field(key).text() {
            Some(t) => t,
            None => Seq::empty(),
        }
    }

    /// The text, where the value is one.
    pub open spec fn text(self) -> Option<Seq<char>> {
        match self {
            JsonView::Text(t) => Some(t),
            _ => None,
        }
    }

    /// The natural number, where the value is one of 64 bits.
    pub open spec fn natural(self) -> Option<u64> {
        match self {
            JsonView::Number(_, n) => n,
            _ => None,
        }
    }
}

impl Json {
    /// The member with this key.
    pub fn get(&self, key: &str) -> (r: Option<&Json>)
        ensures
            match r {
                Some(v) => self@.get(key@) == Some(v@),
                None => self@.get(key@) is None,
            },
    {
        match self {
            Json::Object(fields) => {
                let ghost all = self@->Object_0;
                let mut i: usize = 0;
                while i < fields.len()
                    invariant
                        self@ == JsonView::Object(all),
                        all.len() == fields@.len(),
                        forall|k: int|
                            0 <= k < all.len() ==> #[trigger] all[k] == (
                                fields@[k].0@,
                                json_view(fields@[k].1),
                            ),
                        i <= fields@.len(),
                        self@.get(key@) == member_from(all, key@, i as int),
                    decreases fields@.len() - i,
                {
                    assert(all[i as int] == (fields@[i as int].0@, json_view(fields@[i as int].1)));
                    if same_text(fields[i].0.as_str(), key) {
                        return Some(&fields[i].1);
                    }
                    i = i + 1;
                }
                None
            },
            _ => None,
        }
    }

    /// The text, where the value is one.
    pub fn as_text(&self) -> (r: Option<&str>)
        ensures
            crate::text::opt_str_view(r) == self@.text(),
    {
        match self {
            Json::Text(t) => Some(t.as_str()),
            _ => None,
        }
    }

    /// The natural number, where the value is one of 64 bits.
    pub fn as_natural(&self) -> (r: Option<u64>)
        ensures
            r == self@.natural(),
    {
        match self {
            Json::Number(_, n) => *n,
            _ => None,
        }
    }

    /// The text of the member with this key, where it is a text.
    pub fn text_field(&self, key: &str) -> (r: Option<&str>)
        ensures
            crate::text::opt_str_view(r) == self@.field(key@).text(),
    {
        match self.get(key) {
            Some(v) => v.as_text(),
            None => None,
        }
    }

    /// The text of the member with this key, empty where it is none.
    pub fn text_or_empty(&self, key: &str) -> (r: &str)
        ensures
            r@ == self@.text_or_empty(key@),
    {
        match self.text_field(key) {
            Some(t) => t,
            None => {
                proof {
                    reveal_strlit("");
                    assert(""@ =~= Seq::<char>::empty());
                }
                ""
            },
        }
    }

    /// The number of the member with this key, where it is a natural one.
    pub fn natural_field(&self, key: &str) -> (r: Option<u64>)
        ensures
            r == self@.field(key@).natural(),
    {
        match self.get(key) {
            Some(v) => v.as_natural(),
            None => None,
        }
    }

    /// The text of a member of a member, where it is a text.
    pub fn text_field_in(&self, outer: &str, key: &str) -> (r: Option<&str>)
        ensures
            crate::text::opt_str_view(r) == self@.field(outer@).field(key@).text(),
    {
        match self.get(outer) {
            Some(v) => v.text_field(key),
            None => None,
        }
    }

    /// A number of 64 bits.
    pub fn number(n: u64) -> (r: Json)
        ensures
            r@ == natural_value(n),
    {
        Json::Number(decimal_text(n as u128), Some(n))
    }

    /// A text.
    pub fn string(s: &str) -> (r: Json)
        ensures
            r@ == JsonView::Text(s@),
    {
        Json::Text(s.to_string())
    }
}

/// A number of 64 bits.
pub open spec fn natural_value(n: u64) -> JsonView {
    JsonView::Number(decimal(n as nat), Some(n))
}

/// The members of an object under construction.
pub open spec fn tree_fields(fields: Seq<(&'static str, Json)>) -> Seq<(Seq<char>, JsonView)> {
    Seq::new(fields.len(), |i: int| (fields[i].0@, fields[i].1@))
}

impl Json {
    /// An object with these members.
    pub fn object(fields: Vec<(&'static str, Json)>) -> (r: Json)
        ensures
            r@ == JsonView::Object(tree_fields(fields@)),
    {
        let ghost all = tree_fields(fields@);
        let mut rest = fields;
        let mut out: Vec<(String, Json)> = Vec::new();
        while rest.len() > 0
            invariant
                all.len() == rest@.len() + out@.len(),
                forall|k: int|
                    0 <= k < out@.len() ==> #[trigger] all[k] == (out@[k].0@, json_view(out@[k].1)),
                forall|k: int|
                    0 <= k < rest@.len() ==> (#[trigger] rest@[k]).0@ == all[out@.len() + k].0
                        && rest@[k].1@ == all[out@.len() + k].1,
            decreases rest@.len(),
        {
            let ghost before = rest@;
            let (k, v) = rest.remove(0);
            assert(before[0] == (k, v));
            let ghost n = out@.len() as int;
            out.push((k.to_string(), v));
            assert(all[n] == (out@[n].0@, json_view(out@[n].1)));
            assert forall|j: int| 0 <= j < rest@.len() implies (#[trigger] rest@[j]).0@
                == all[out@.len() + j].0 && rest@[j].1@ == all[out@.len() + j].1 by {
                assert(rest@[j] == before[j + 1]);
            }
        }
        let r = Json::Object(out);
        assert(r@->Object_0 =~= all);
        r
    }
}

/// Whether a value is read back from its own text.
pub open spec fn reads_back(v: JsonView) -> bool {
    json_read(json_text(v)) == Some(v)
}

// ---- writing --------------------------------------------------------------------

proof fn lemma_field_texts(fields: Seq<(Seq<char>, JsonView)>, n: nat)
    requires
        n <= fields.len(),
    ensures
        field_texts(fields, n).len() == n,
    decreases n,
{
    if n > 0 {
        lemma_field_texts(fields, (n - 1) as nat);
    }
}

/// The text of a value.
fn write_json(v: &Json) -> (r: String)
    ensures
        r@ == json_text(v@),
    decreases v,
{
    match v {
        Json::Null => "null".to_string(),
        Json::Bool(b) => crate::json::bool_text(*b),
        Json::Number(t, _) => t.clone(),
        Json::Text(t) => quote(t.as_str()),
        Json::List(items) => {
            let ghost all = v@->List_0;
            let mut out: Vec<String> = Vec::new();
            assert(views(out@) =~= list_texts(all, 0));
            for i in 0..items.len()
                invariant
                    v == Json::List(*items),
                    all.len() == items@.len(),
                    forall|k: int|
                        0 <= k < all.len() ==> #[trigger] all[k] == json_view(items@[k]),
                    views(out@) == list_texts(all, i as nat),
            {
                assert(all[i as int] == json_view(items@[i as int]));
                assert(decreases_to!(*items => items[i as int]));
                assert(decreases_to!(v => v->List_0));
                let t = write_json(&items[i]);
                let ghost before = out@;
                let ghost last = t@;
                out.push(t);
                assert(views(out@) =~= views(before).push(last));
            }
            array_of(&out)
        },
        Json::Object(fields) => {
            let ghost all = v@->Object_0;
            let mut out: String = String::new();
            out.push('{');
            assert(out@ =~= seq!['{'] + joined(
                crate::json::member_texts(field_texts(all, 0)),
                seq![','],
            ));
            for i in 0..fields.len()
                invariant
                    v == Json::Object(*fields),
                    all.len() == fields@.len(),
                    forall|k: int|
                        0 <= k < all.len() ==> #[trigger] all[k] == (
                            fields@[k].0@,
                            json_view(fields@[k].1),
                        ),
                    out@ == seq!['{'] + joined(
                        crate::json::member_texts(field_texts(all, i as nat)),
                        seq![','],
                    ),
            {
                let ghost before = crate::json::member_texts(field_texts(all, i as nat));
                let ghost after = crate::json::member_texts(field_texts(all, (i + 1) as nat));
                proof {
                    assert(all[i as int] == (
                        fields@[i as int].0@,
                        json_view(fields@[i as int].1),
                    ));
                    lemma_field_texts(all, i as nat);
                    assert(after.drop_last() =~= before);
                    assert(after.last() == member(
                        all[i as int].0,
                        json_text(all[i as int].1),
                    ));
                    assert(decreases_to!(*fields => fields[i as int]));
                    assert(decreases_to!(v => v->Object_0));
                }
                if i > 0 {
                    out.push(',');
                }
                let key = quote(fields[i].0.as_str());
                let value = write_json(&fields[i].1);
                out.append(key.as_str());
                out.push(':');
                out.append(value.as_str());
                assert(out@ =~= seq!['{'] + joined(after, seq![',']));
            }
            out.push('}');
            assert(out@ =~= json_text(v@));
            out
        },
    }
}

impl Json {
    /// The text of the value.
    pub fn to_text(&self) -> (r: String)
        ensures
            r@ == json_text(self@),
    {
        write_json(self)
    }
}

/// A copy of a value.
fn copy_json(v: &Json) -> (r: Json)
    ensures
        r@ == v@,
    decreases v,
{
    match v {
        Json::Null => Json::Null,
        Json::Bool(b) => Json::Bool(*b),
        Json::Number(t, n) => Json::Number(t.clone(), *n),
        Json::Text(t) => Json::Text(t.clone()),
        Json::List(items) => {
            let ghost all = v@->List_0;
            let mut out: Vec<Json> = Vec::new();
            for i in 0..items.len()
                invariant
                    v == Json::List(*items),
                    all.len() == items@.len(),
                    forall|k: int| 0 <= k < all.len() ==> #[trigger] all[k] == json_view(items@[k]),
                    out@.len() == i,
                    forall|k: int| 0 <= k < i ==> json_view(#[trigger] out@[k]) == all[k],
            {
                assert(all[i as int] == json_view(items@[i as int]));
                assert(decreases_to!(*items => items[i as int]));
                assert(decreases_to!(v => v->List_0));
                out.push(copy_json(&items[i]));
            }
            let r = Json::List(out);
            assert(r@->List_0 =~= all);
            r
        },
        Json::Object(fields) => {
            let ghost all = v@->Object_0;
            let mut out: Vec<(String, Json)> = Vec::new();
            for i in 0..fields.len()
                invariant
                    v == Json::Object(*fields),
                    all.len() == fields@.len(),
                    forall|k: int|
                        0 <= k < all.len() ==> #[trigger] all[k] == (
                            fields@[k].0@,
                            json_view(fields@[k].1),
                        ),
                    out@.len() == i,
                    forall|k: int|
                        0 <= k < i ==> ((#[trigger] out@[k]).0@, json_view(out@[k].1)) == all[k],
            {
                assert(all[i as int] == (fields@[i as int].0@, json_view(fields@[i as int].1)));
                assert(decreases_to!(*fields => fields[i as int]));
                assert(decreases_to!(v => v->Object_0));
                out.push((fields[i].0.clone(), copy_json(&fields[i].1)));
            }
            let r = Json::Object(out);
            assert(r@->Object_0 =~= all);
            r
        },
    }
}

impl Clone for Json {
    fn clone(&self) -> (r: Self)
        ensures
            r@ == self@,
    {
        copy_json(self)
    }
}

/// The values of a run of trees.
pub open spec fn json_views(v: Seq<Json>) -> Seq<JsonView> {
    Seq::new(v.len(), |i: int| v[i]@)
}

impl Json {
    /// A list of these elements.
    pub fn list(items: Vec<Json>) -> (r: Json)
        ensures
            r@ == JsonView::List(json_views(items@)),
    {
        let ghost all = json_views(items@);
        let r = Json::List(items);
        assert(r@->List_0 =~= all);
        r
    }
}

// ---- comparing ------------------------------------------------------------------

/// Zero, written as a fraction of either sign.
pub open spec fn fraction_zero(t: Seq<char>) -> bool {
    t == "0.0"@ || t == "-0.0"@
}

/// Whether two values are the same. The two zeros among the fractions are.
pub open spec fn json_same(a: JsonView, b: JsonView) -> bool
    decreases a,
{
    match (a, b) {
        (JsonView::Null, JsonView::Null) => true,
        (JsonView::Bool(x), JsonView::Bool(y)) => x == y,
        (JsonView::Number(x, _), JsonView::Number(y, _)) => x == y || (fraction_zero(x)
            && fraction_zero(y)),
        (JsonView::Text(x), JsonView::Text(y)) => x == y,
        (JsonView::List(x), JsonView::List(y)) => x.len() == y.len() && forall|i: int|
            0 <= i < x.len() ==> json_same(#[trigger] x[i], y[i]),
        (JsonView::Object(x), JsonView::Object(y)) => x.len() == y.len() && forall|i: int|
            0 <= i < x.len() ==> (#[trigger] x[i]).0 == y[i].0 && json_same(x[i].1, y[i].1),
        _ => false,
    }
}

/// Every value is the same as itself.
pub proof fn law_json_same_as_itself(a: JsonView)
    ensures
        json_same(a, a),
    decreases a,
{
    match a {
        JsonView::List(x) => {
            assert forall|i: int| 0 <= i < x.len() implies json_same(#[trigger] x[i], x[i]) by {
                law_json_same_as_itself(x[i]);
            }
        },
        JsonView::Object(x) => {
            assert forall|i: int| 0 <= i < x.len() implies (#[trigger] x[i]).0 == x[i].0
                && json_same(x[i].1, x[i].1) by {
                law_json_same_as_itself(x[i].1);
            }
        },
        _ => {},
    }
}

fn is_fraction_zero(t: &str) -> (r: bool)
    ensures
        r == fraction_zero(t@),
{
    same_text(t, "0.0") || same_text(t, "-0.0")
}

/// Whether two values are the same.
pub fn same_json(a: &Json, b: &Json) -> (r: bool)
    ensures
        r == json_same(a@, b@),
    decreases a,
{
    match (a, b) {
        (Json::Null, Json::Null) => true,
        (Json::Bool(x), Json::Bool(y)) => *x == *y,
        (Json::Number(x, _), Json::Number(y, _)) => same_text(x.as_str(), y.as_str()) || (
        is_fraction_zero(x.as_str()) && is_fraction_zero(y.as_str())),
        (Json::Text(x), Json::Text(y)) => same_text(x.as_str(), y.as_str()),
        (Json::List(x), Json::List(y)) => {
            if x.len() != y.len() {
                return false;
            }
            let ghost p = a@->List_0;
            let ghost q = b@->List_0;
            for i in 0..x.len()
                invariant
                    a == Json::List(*x),
                    b == Json::List(*y),
                    a@ == JsonView::List(p),
                    b@ == JsonView::List(q),
                    x@.len() == y@.len(),
                    p.len() == x@.len(),
                    q.len() == y@.len(),
                    forall|k: int| 0 <= k < p.len() ==> #[trigger] p[k] == json_view(x@[k]),
                    forall|k: int| 0 <= k < q.len() ==> #[trigger] q[k] == json_view(y@[k]),
                    forall|k: int| 0 <= k < i ==> json_same(#[trigger] p[k], q[k]),
            {
                if !same_json(&x[i], &y[i]) {
                    assert(!json_same(p[i as int], q[i as int]));
                    return false;
                }
            }
            true
        },
        (Json::Object(x), Json::Object(y)) => {
            if x.len() != y.len() {
                return false;
            }
            let ghost p = a@->Object_0;
            let ghost q = b@->Object_0;
            for i in 0..x.len()
                invariant
                    a == Json::Object(*x),
                    b == Json::Object(*y),
                    a@ == JsonView::Object(p),
                    b@ == JsonView::Object(q),
                    x@.len() == y@.len(),
                    p.len() == x@.len(),
                    q.len() == y@.len(),
                    forall|k: int|
                        0 <= k < p.len() ==> #[trigger] p[k] == (x@[k].0@, json_view(x@[k].1)),
                    forall|k: int|
                        0 <= k < q.len() ==> #[trigger] q[k] == (y@[k].0@, json_view(y@[k].1)),
                    forall|k: int|
                        0 <= k < i ==> (#[trigger] p[k]).0 == q[k].0 && json_same(p[k].1, q[k].1),
            {
                if !same_text(x[i].0.as_str(), y[i].0.as_str()) || !same_json(&x[i].1, &y[i].1) {
                    assert(!(p[i as int].0 == q[i as int].0 && json_same(
                        p[i as int].1,
                        q[i as int].1,
                    )));
                    return false;
                }
            }
            true
        },
        _ => false,
    }
}

/// Two plain values are the same exactly when they are equal.
pub proof fn law_same_values_are_equal(a: JsonView, b: JsonView, depth: nat)
    requires
        plain_value(a, depth),
        plain_value(b, depth),
    ensures
        json_same(a, b) <==> a == b,
    decreases a,
{
    law_json_same_as_itself(a);
    if json_same(a, b) {
        match (a, b) {
            (JsonView::Number(x, m), JsonView::Number(y, n)) => {
                crate::text::law_decimal_reads_back(m->0 as nat);
                crate::text::law_decimal_reads_back(n->0 as nat);
                reveal_strlit("0.0");
                reveal_strlit("-0.0");
                if fraction_zero(x) && fraction_zero(y) {
                    assert(crate::text::is_digit(x[0]));
                    assert(crate::text::is_digit(x[1]));
                }
            },
            (JsonView::List(x), JsonView::List(y)) => {
                assert forall|i: int| 0 <= i < x.len() implies #[trigger] x[i] == y[i] by {
                    assert(plain_value(x[i], (depth - 1) as nat));
                    assert(plain_value(y[i], (depth - 1) as nat));
                    law_same_values_are_equal(x[i], y[i], (depth - 1) as nat);
                }
                assert(x =~= y);
            },
            (JsonView::Object(x), JsonView::Object(y)) => {
                assert forall|i: int| 0 <= i < x.len() implies #[trigger] x[i] == y[i] by {
                    assert(plain_value(x[i].1, (depth - 1) as nat));
                    assert(plain_value(y[i].1, (depth - 1) as nat));
                    assert(x[i].0 == y[i].0);
                    law_same_values_are_equal(x[i].1, y[i].1, (depth - 1) as nat);
                }
                assert(x =~= y);
            },
            _ => {},
        }
    }
}

} // verus!
