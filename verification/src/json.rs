//! JSON texts: strings, objects and arrays in the compact notation.
use vstd::prelude::*;
use vstd::string::*;
use vstd::utf8::*;

use crate::text::{
    byte_len, chars_of, decimal, decimal_text, is_digit, joined, lemma_encode_add, opt_view,
    utf8_len, views,
};

verus! {

/// A lower-case hexadecimal digit.
pub open spec fn hex_digit(d: nat) -> char {
    if d < 10 {
        (48 + d) as u8 as char
    } else {
        (87 + d) as u8 as char
    }
}

/// How one character stands inside a JSON string.
pub open spec fn json_escape(c: char) -> Seq<char> {
    let u = c as u32;
    if c == '"' || c == '\\' {
        seq!['\\', c]
    } else if u == 0x08 {
        seq!['\\', 'b']
    } else if u == 0x09 {
        seq!['\\', 't']
    } else if u == 0x0a {
        seq!['\\', 'n']
    } else if u == 0x0c {
        seq!['\\', 'f']
    } else if u == 0x0d {
        seq!['\\', 'r']
    } else if u < 0x20 {
        seq!['\\', 'u', '0', '0', hex_digit((u / 16) as nat), hex_digit((u % 16) as nat)]
    } else {
        seq![c]
    }
}

/// The characters of `s` as they stand inside a JSON string.
pub open spec fn json_escaped(s: Seq<char>) -> Seq<char>
    decreases s.len(),
{
    if s.len() == 0 {
        Seq::<char>::empty()
    } else {
        json_escaped(s.drop_last()) + json_escape(s.last())
    }
}

/// The JSON string that holds `s`.
pub open spec fn json_string(s: Seq<char>) -> Seq<char> {
    seq!['"'] + json_escaped(s) + seq!['"']
}

/// `serde_json::to_string` of a string slice: the JSON string that holds it,
/// with the two-character escapes, `\u00xx` for the other control characters
/// below U+0020, and every other character as it is.
#[verifier::external_body]
pub(crate) fn quote(s: &str) -> (r: String)
    ensures
        r@ == json_string(s@),
{
    serde_json::to_string(s).expect("a string is serializable")
}

/// One member of a JSON object: its key and the text of its value.
pub open spec fn member(key: Seq<char>, value: Seq<char>) -> Seq<char> {
    json_string(key) + seq![':'] + value
}

/// The member texts of a run of keys and values.
pub open spec fn member_texts(fields: Seq<(Seq<char>, Seq<char>)>) -> Seq<Seq<char>> {
    Seq::new(fields.len(), |i: int| member(fields[i].0, fields[i].1))
}

/// A JSON object with these keys and value texts, in this order.
pub open spec fn object_text(fields: Seq<(Seq<char>, Seq<char>)>) -> Seq<char> {
    seq!['{'] + joined(member_texts(fields), seq![',']) + seq!['}']
}

/// A JSON array of these element texts.
pub open spec fn array_text(items: Seq<Seq<char>>) -> Seq<char> {
    seq!['['] + joined(items, seq![',']) + seq![']']
}

/// The view of a run of keys and value texts.
pub open spec fn field_views(v: Seq<(&'static str, String)>) -> Seq<(Seq<char>, Seq<char>)> {
    Seq::new(v.len(), |i: int| (v[i].0@, v[i].1@))
}

/// A JSON object with these keys and value texts, in this order.
pub fn object_of(fields: &Vec<(&'static str, String)>) -> (r: String)
    ensures
        r@ == object_text(field_views(fields@)),
{
    let mut out = String::new();
    out.push('{');
    let ghost t = member_texts(field_views(fields@));
    assert(out@ =~= seq!['{'] + joined(t.take(0), seq![',']));
    for i in 0..fields.len()
        invariant
            t == member_texts(field_views(fields@)),
            out@ == seq!['{'] + joined(t.take(i as int), seq![',']),
    {
        proof {
            assert(t.take(i + 1).drop_last() =~= t.take(i as int));
            assert(t.take(i + 1).last() == member(fields@[i as int].0@, fields@[i as int].1@));
        }
        if i > 0 {
            out.push(',');
        }
        let key = quote(fields[i].0);
        out.append(key.as_str());
        out.push(':');
        out.append(fields[i].1.as_str());
        assert(out@ =~= seq!['{'] + joined(t.take(i + 1), seq![',']));
    }
    assert(t.take(t.len() as int) =~= t);
    out.push('}');
    assert(out@ =~= object_text(field_views(fields@)));
    out
}

/// A JSON array of these element texts.
pub fn array_of(items: &Vec<String>) -> (r: String)
    ensures
        r@ == array_text(views(items@)),
{
    let mut out = String::new();
    out.push('[');
    let ghost t = views(items@);
    assert(out@ =~= seq!['['] + joined(t.take(0), seq![',']));
    for i in 0..items.len()
        invariant
            t == views(items@),
            out@ == seq!['['] + joined(t.take(i as int), seq![',']),
    {
        proof {
            assert(t.take(i + 1).drop_last() =~= t.take(i as int));
            assert(t.take(i + 1).last() == items@[i as int]@);
        }
        if i > 0 {
            out.push(',');
        }
        out.append(items[i].as_str());
        assert(out@ =~= seq!['['] + joined(t.take(i + 1), seq![',']));
    }
    assert(t.take(t.len() as int) =~= t);
    out.push(']');
    assert(out@ =~= array_text(views(items@)));
    out
}

/// An optional text member.
pub open spec fn optional_text(key: Seq<char>, value: Option<Seq<char>>) -> Seq<
    (Seq<char>, Seq<char>),
> {
    match value {
        Some(v) => seq![(key, json_string(v))],
        None => seq![],
    }
}

/// An optional number member.
pub open spec fn optional_number(key: Seq<char>, value: Option<u64>) -> Seq<
    (Seq<char>, Seq<char>),
> {
    match value {
        Some(v) => seq![(key, decimal(v as nat))],
        None => seq![],
    }
}

/// An optional member whose value is a JSON text already.
pub open spec fn optional_raw(key: Seq<char>, value: Option<Seq<char>>) -> Seq<
    (Seq<char>, Seq<char>),
> {
    match value {
        Some(v) => seq![(key, v)],
        None => seq![],
    }
}

/// Adds a text member.
pub(crate) fn push_text(fields: &mut Vec<(&'static str, String)>, key: &'static str, value: &str)
    ensures
        field_views(final(fields)@) == field_views(old(fields)@).push((key@, json_string(value@))),
{
    fields.push((key, quote(value)));
    assert(field_views(fields@) =~= field_views(old(fields)@).push((key@, json_string(value@))));
}

/// Adds a number member.
pub(crate) fn push_number(fields: &mut Vec<(&'static str, String)>, key: &'static str, value: u64)
    ensures
        field_views(final(fields)@) == field_views(old(fields)@).push(
            (key@, decimal(value as nat)),
        ),
{
    fields.push((key, decimal_text(value as u128)));
    assert(field_views(fields@) =~= field_views(old(fields)@).push((key@, decimal(value as nat))));
}

/// Adds a text member where there is a text.
pub(crate) fn push_optional_text(
    fields: &mut Vec<(&'static str, String)>,
    key: &'static str,
    value: &Option<String>,
)
    ensures
        field_views(final(fields)@) == field_views(old(fields)@) + optional_text(
            key@,
            opt_view(*value),
        ),
{
    match value {
        Some(v) => push_text(fields, key, v.as_str()),
        None => {},
    }
    assert(field_views(fields@) =~= field_views(old(fields)@) + optional_text(
        key@,
        opt_view(*value),
    ));
}

/// Adds a number member where there is a number.
pub(crate) fn push_optional_number(
    fields: &mut Vec<(&'static str, String)>,
    key: &'static str,
    value: Option<u64>,
)
    ensures
        field_views(final(fields)@) == field_views(old(fields)@) + optional_number(key@, value),
{
    match value {
        Some(v) => push_number(fields, key, v),
        None => {},
    }
    assert(field_views(fields@) =~= field_views(old(fields)@) + optional_number(key@, value));
}

/// Where the run of digits that begins at `i` ends.
pub open spec fn digits_end(s: Seq<char>, i: int) -> int
    decreases s.len() - i,
{
    if 0 <= i < s.len() && is_digit(s[i]) {
        digits_end(s, i + 1)
    } else {
        i
    }
}

/// Where the fraction ends that may begin at `i`; nothing where a point has no
/// digit behind it.
pub open spec fn fraction_end(s: Seq<char>, i: int) -> Option<int> {
    if i < s.len() && s[i] == '.' {
        if digits_end(s, i + 1) > i + 1 {
            Some(digits_end(s, i + 1))
        } else {
            None
        }
    } else {
        Some(i)
    }
}

/// Where the exponent ends that may begin at `i`; nothing where its mark has no
/// digit behind it.
pub open spec fn exponent_end(s: Seq<char>, i: int) -> Option<int> {
    if i < s.len() && (s[i] == 'e' || s[i] == 'E') {
        let a = if i + 1 < s.len() && (s[i + 1] == '+' || s[i + 1] == '-') {
            i + 2
        } else {
            i + 1
        };
        if digits_end(s, a) > a {
            Some(digits_end(s, a))
        } else {
            None
        }
    } else {
        Some(i)
    }
}

/// Whether a text is a JSON number: an integer without leading zeros, a
/// fraction and an exponent where it has them, and nothing else.
pub open spec fn json_number(s: Seq<char>) -> bool {
    let a = if s.len() > 0 && s[0] == '-' {
        1int
    } else {
        0
    };
    let b = digits_end(s, a);
    let c = fraction_end(s, b);
    &&& b > a
    &&& (s[a] == '0' ==> b == a + 1)
    &&& c is Some
    &&& exponent_end(s, c->0) == Some(s.len() as int)
}

fn end_of_digits(s: &Vec<char>, i: usize) -> (r: usize)
    requires
        i <= s@.len(),
    ensures
        r == digits_end(s@, i as int),
        i <= r <= s@.len(),
{
    let mut k: usize = i;
    while k < s.len() && '0' <= s[k] && s[k] <= '9'
        invariant
            i <= k <= s@.len(),
            digits_end(s@, i as int) == digits_end(s@, k as int),
        decreases s@.len() - k,
    {
        k = k + 1;
    }
    k
}

/// Whether a text is a JSON number.
pub fn is_json_number(text: &str) -> (r: bool)
    ensures
        r == json_number(text@),
{
    let s = chars_of(text);
    let a: usize = if s.len() > 0 && s[0] == '-' {
        1
    } else {
        0
    };
    let b: usize = end_of_digits(&s, a);
    if b == a || (s[a] == '0' && b != a + 1) {
        return false;
    }
    let c: usize = if b < s.len() && s[b] == '.' {
        let c: usize = end_of_digits(&s, b + 1);
        if c == b + 1 {
            return false;
        }
        c
    } else {
        b
    };
    if c < s.len() && (s[c] == 'e' || s[c] == 'E') {
        let d: usize = if c + 1 < s.len() && (s[c + 1] == '+' || s[c + 1] == '-') {
            c + 2
        } else {
            c + 1
        };
        let e: usize = end_of_digits(&s, d);
        e > d && e == s.len()
    } else {
        c == s.len()
    }
}

/// The texts of the two truth values.
pub open spec fn json_bool(b: bool) -> Seq<char> {
    if b {
        "true"@
    } else {
        "false"@
    }
}

/// The text of a truth value.
pub fn bool_text(b: bool) -> (r: String)
    ensures
        r@ == json_bool(b),
{
    if b {
        "true".to_string()
    } else {
        "false".to_string()
    }
}

/// Bytes of a JSON array of these element texts.
pub open spec fn array_bytes(items: Seq<Seq<char>>) -> nat {
    utf8_len(array_text(items))
}

proof fn lemma_ascii_len_one(c: char)
    requires
        (c as u32) < 0x80,
    ensures
        utf8_len(seq![c]) == 1,
{
    reveal_with_fuel(encode_utf8, 2);
    assert(seq![c].drop_first() =~= Seq::<char>::empty());
}

proof fn lemma_joined_push(items: Seq<Seq<char>>, item: Seq<char>)
    ensures
        utf8_len(joined(items.push(item), seq![','])) == utf8_len(joined(items, seq![','])) + utf8_len(
            item,
        ) + (if items.len() > 0 {
            1nat
        } else {
            0
        }),
{
    let sep = seq![','];
    assert(items.push(item).drop_last() =~= items);
    if items.len() == 0 {
        assert(items.push(item)[0] == item);
        assert(utf8_len(joined(items, sep)) == 0);
    } else {
        lemma_encode_add(joined(items, sep) + sep, item);
        lemma_encode_add(joined(items, sep), sep);
        lemma_ascii_len_one(',');
    }
}

/// The bytes of an array: two brackets, the elements, and a comma between
/// neighbours.
pub proof fn lemma_array_bytes(items: Seq<Seq<char>>)
    ensures
        array_bytes(items) == 2 + utf8_len(joined(items, seq![','])),
{
    let body = joined(items, seq![',']);
    lemma_encode_add(seq!['['] + body, seq![']']);
    lemma_encode_add(seq!['['], body);
    lemma_ascii_len_one('[');
    lemma_ascii_len_one(']');
}

/// Adding an element adds its bytes and, where it is not the first, a comma.
pub proof fn lemma_array_bytes_push(items: Seq<Seq<char>>, item: Seq<char>)
    ensures
        array_bytes(items.push(item)) == array_bytes(items) + utf8_len(item) + (if items.len() > 0 {
            1nat
        } else {
            0
        }),
        array_bytes(Seq::<Seq<char>>::empty()) == 2,
{
    lemma_joined_push(items, item);
    lemma_array_bytes(items);
    lemma_array_bytes(items.push(item));
    lemma_array_bytes(Seq::<Seq<char>>::empty());
    assert(utf8_len(joined(Seq::<Seq<char>>::empty(), seq![','])) == 0);
}

/// Dropping elements at the front never makes an array longer.
pub proof fn lemma_array_bytes_drop_first(items: Seq<Seq<char>>)
    requires
        items.len() > 0,
    ensures
        array_bytes(items.drop_first()) <= array_bytes(items),
    decreases items.len(),
{
    if items.len() == 1 {
        assert(items.drop_first() =~= Seq::<Seq<char>>::empty());
        lemma_array_bytes_push(items.drop_last(), items.last());
        assert(items.drop_last().push(items.last()) =~= items);
        lemma_array_bytes_push(Seq::<Seq<char>>::empty(), items.last());
        assert(items.drop_last() =~= Seq::<Seq<char>>::empty());
    } else {
        lemma_array_bytes_drop_first(items.drop_last());
        lemma_array_bytes_push(items.drop_last(), items.last());
        assert(items.drop_last().push(items.last()) =~= items);
        let d = items.drop_last().drop_first();
        lemma_array_bytes_push(d, items.last());
        assert(d.push(items.last()) =~= items.drop_first());
    }
}

/// Bytes of a JSON array of these element texts, or `None` where the count
/// does not fit a machine word.
pub fn count_array_bytes(items: &Vec<String>) -> (r: Option<usize>)
    ensures
        match r {
            Some(n) => n == array_bytes(views(items@)),
            None => array_bytes(views(items@)) > usize::MAX,
        },
{
    let ghost t = views(items@);
    let mut n: usize = 2;
    proof {
        assert(t.take(0) =~= Seq::<Seq<char>>::empty());
        lemma_array_bytes_push(t.take(0), Seq::<char>::empty());
    }
    for i in 0..items.len()
        invariant
            t == views(items@),
            n == array_bytes(t.take(i as int)),
    {
        let w: usize = byte_len(items[i].as_str());
        let sep: usize = if i > 0 {
            1
        } else {
            0
        };
        proof {
            lemma_array_bytes_push(t.take(i as int), t[i as int]);
            assert(t.take(i as int).push(t[i as int]) =~= t.take(i + 1));
            lemma_array_bytes_take(t, i + 1);
        }
        match n.checked_add(sep) {
            None => {
                return None;
            },
            Some(m) => match m.checked_add(w) {
                None => {
                    return None;
                },
                Some(k) => {
                    n = k;
                },
            },
        }
    }
    assert(t.take(t.len() as int) =~= t);
    Some(n)
}

proof fn lemma_array_bytes_take(items: Seq<Seq<char>>, n: int)
    requires
        0 <= n <= items.len(),
    ensures
        array_bytes(items.take(n)) <= array_bytes(items),
    decreases items.len() - n,
{
    if n == items.len() {
        assert(items.take(n) =~= items);
    } else {
        lemma_array_bytes_take(items, n + 1);
        lemma_array_bytes_push(items.take(n), items[n]);
        assert(items.take(n).push(items[n]) =~= items.take(n + 1));
    }
}

/// Whether a JSON array of these element texts takes more than `max` bytes.
pub fn array_exceeds(items: &Vec<String>, max: usize) -> (r: bool)
    ensures
        r == (array_bytes(views(items@)) > max),
{
    match count_array_bytes(items) {
        Some(n) => n > max,
        None => true,
    }
}

/// Whether a JSON array of these element texts and one more takes more than
/// `max` bytes.
pub fn array_would_exceed(items: &Vec<String>, item: &str, max: usize) -> (r: bool)
    ensures
        r == (array_bytes(views(items@).push(item@)) > max),
{
    proof {
        lemma_array_bytes_push(views(items@), item@);
    }
    let w: usize = byte_len(item);
    let sep: usize = if items.len() > 0 {
        1
    } else {
        0
    };
    match count_array_bytes(items) {
        Some(n) => match n.checked_add(sep) {
            Some(m) => match m.checked_add(w) {
                Some(k) => k > max,
                None => true,
            },
            None => true,
        },
        None => true,
    }
}

// ---- sizes ----------------------------------------------------------------------

proof fn lemma_ascii_bytes(s: Seq<char>)
    requires
        forall|i: int| 0 <= i < s.len() ==> (#[trigger] s[i] as u32) < 0x80,
    ensures
        utf8_len(s) == s.len(),
    decreases s.len(),
{
    if s.len() > 0 {
        let t = s.drop_last();
        assert forall|i: int| 0 <= i < t.len() implies (#[trigger] t[i] as u32) < 0x80 by {
            assert(t[i] == s[i]);
        }
        lemma_ascii_bytes(t);
        crate::text::lemma_encode_push(t, s.last());
        assert(t.push(s.last()) =~= s);
        assert((s[s.len() - 1] as u32) < 0x80);
    }
}

/// A JSON string takes at most six bytes for each byte of its text, and two
/// quotes.
pub proof fn lemma_json_string_bytes(s: Seq<char>)
    ensures
        utf8_len(json_string(s)) <= 6 * utf8_len(s) + 2,
{
    lemma_escaped_bytes(s);
    lemma_encode_add(seq!['"'] + json_escaped(s), seq!['"']);
    lemma_encode_add(seq!['"'], json_escaped(s));
    lemma_ascii_len_one('"');
}

proof fn lemma_escaped_bytes(s: Seq<char>)
    ensures
        utf8_len(json_escaped(s)) <= 6 * utf8_len(s),
    decreases s.len(),
{
    if s.len() > 0 {
        let d = s.drop_last();
        let c = s.last();
        lemma_escaped_bytes(d);
        lemma_encode_add(json_escaped(d), json_escape(c));
        crate::text::lemma_encode_push(d, c);
        assert(d.push(c) =~= s);
        let e = json_escape(c);
        if (c as u32) < 0x20 || c == '"' || c == '\\' {
            assert forall|i: int| 0 <= i < e.len() implies (#[trigger] e[i] as u32) < 0x80 by {}
            lemma_ascii_bytes(e);
            assert(e.len() <= 6);
        } else {
            crate::text::lemma_encode_push(Seq::<char>::empty(), c);
            assert(Seq::<char>::empty().push(c) =~= e);
        }
    }
}

/// Decimal notation of 64 bits takes at most twenty bytes.
pub proof fn lemma_decimal_bytes(n: u64)
    ensures
        utf8_len(decimal(n as nat)) <= 20,
{
    crate::text::law_decimal_reads_back(n as nat);
    reveal_with_fuel(crate::text::ten_to, 21);
    crate::text::lemma_decimal_len(n as nat, 20);
    let d = decimal(n as nat);
    assert forall|i: int| 0 <= i < d.len() implies (#[trigger] d[i] as u32) < 0x80 by {
        assert(crate::text::is_digit(d[i]));
    }
    lemma_ascii_bytes(d);
}

/// The bytes of a member.
pub proof fn lemma_member_bytes(key: Seq<char>, value: Seq<char>)
    ensures
        utf8_len(member(key, value)) <= 6 * utf8_len(key) + 3 + utf8_len(value),
{
    lemma_json_string_bytes(key);
    lemma_encode_add(json_string(key) + seq![':'], value);
    lemma_encode_add(json_string(key), seq![':']);
    lemma_ascii_len_one(':');
}

/// An object takes as many bytes as an array of its members.
pub proof fn lemma_object_bytes(fields: Seq<(Seq<char>, Seq<char>)>)
    ensures
        utf8_len(object_text(fields)) == array_bytes(member_texts(fields)),
{
    let body = joined(member_texts(fields), seq![',']);
    lemma_array_bytes(member_texts(fields));
    lemma_encode_add(seq!['{'] + body, seq!['}']);
    lemma_encode_add(seq!['{'], body);
    lemma_ascii_len_one('{');
    lemma_ascii_len_one('}');
}

/// A key of ASCII characters takes one byte for each.
pub proof fn lemma_key_bytes(key: Seq<char>)
    requires
        forall|i: int| 0 <= i < key.len() ==> (#[trigger] key[i] as u32) < 0x80,
    ensures
        utf8_len(key) == key.len(),
{
    lemma_ascii_bytes(key);
}

} // verus!
