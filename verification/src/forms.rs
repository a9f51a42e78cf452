//! The forms that texts take: which identifiers, names, times and numbers are
//! sound, how texts are quoted, and what trimming and decoding give back.
use vstd::prelude::*;
use vstd::string::*;

use crate::auth::{hex_decoded, hex_value, startup_fault};
use crate::frames::{is_object_text, lemma_found};
use crate::hermes_search::{shown_chat_id, shown_title};
use crate::json::{
    digits_end, exponent_end, fraction_end, hex_digit, json_escape, json_escaped, json_number,
    json_string, object_text,
};
use crate::lanes::{iso_timestamp, number_at, valid_lane_name, valid_timestamp};
use crate::meta::noted;
use crate::paths::beside;
use crate::proto::{
    control_char, lemma_ascii_lengths, protocol_blank_char, valid_confidence, valid_installation_id,
    valid_lane_id, valid_opaque_id, valid_optional_receipt, valid_receipt, valid_turn_token,
};
use crate::text::{
    all_digits, blank, bounded, digits_value, fits, has_prefix, is_digit, joined,
    law_bounded_is_the_longest_prefix, lemma_trimmed_end_at, lemma_trimmed_start_at, trimmed,
    utf8_len, white_space,
};
use crate::trees::{lemma_object, written_as};
use crate::value::JsonView;

verus! {

// ---- identifiers ----------------------------------------------------------------

/// A letter or a digit of ASCII.
pub open spec fn letter_or_digit(c: char) -> bool {
    let u = c as u32;
    48 <= u <= 57 || 65 <= u <= 90 || 97 <= u <= 122
}

proof fn lemma_character(c: char)
    ensures
        letter_or_digit(c) <==> crate::proto::ascii_alphanumeric(c),
        c as u32 == 0x20 ==> c == ' ',
{
}

/// A lane is named by letters, digits, colons, underscores and dashes, a hundred
/// and twenty-eight at most, with a letter or a digit at either end.
pub proof fn law_lane_ids(s: Seq<char>)
    ensures
        valid_lane_id(s) <==> {
            &&& 1 <= s.len() <= 128
            &&& forall|i: int|
                0 <= i < s.len() ==> letter_or_digit(#[trigger] s[i]) || ((s[i] == ':' || s[i]
                    == '_' || s[i] == '-') && 0 < i < s.len() - 1)
        },
{
    if s.len() > 0 {
        lemma_character(s[0]);
        lemma_character(s[s.len() - 1]);
    }
    if valid_lane_id(s) {
        assert forall|i: int| 0 <= i < s.len() implies letter_or_digit(#[trigger] s[i]) || ((s[i]
            == ':' || s[i] == '_' || s[i] == '-') && 0 < i < s.len() - 1) by {
            lemma_character(s[i]);
            assert(crate::proto::lane_char(s[i]));
        }
    }
    if s.len() > 0 && forall|i: int|
        0 <= i < s.len() ==> letter_or_digit(#[trigger] s[i]) || ((s[i] == ':' || s[i] == '_'
            || s[i] == '-') && 0 < i < s.len() - 1) {
        assert forall|i: int| 0 <= i < s.len() implies crate::proto::lane_char(#[trigger] s[i]) by {
            lemma_character(s[i]);
        }
    }
}

/// A text of printable ASCII that is not all spaces is a sound identifier up to its
/// length: two hundred and fifty-six for a message, a hundred and twenty-eight for
/// a turn or an installation.
pub proof fn law_printable_ids(s: Seq<char>, k: int)
    requires
        forall|i: int| 0 <= i < s.len() ==> 0x20 <= (#[trigger] s[i] as u32) < 0x7f,
        0 <= k < s.len(),
        s[k] != ' ',
    ensures
        valid_opaque_id(s) <==> s.len() <= 256,
        valid_turn_token(s) <==> s.len() <= 128,
        valid_installation_id(s) <==> s.len() <= 128,
{
    lemma_ascii_lengths(s);
    lemma_character(s[k]);
    assert(!protocol_blank_char(s[k]));
}

/// No identifier is empty, or all blanks; and none but that of a turn holds a
/// control character.
pub proof fn law_unsound_ids(s: Seq<char>, k: int)
    ensures
        s.len() == 0 || blank(s) ==> !valid_opaque_id(s) && !valid_turn_token(s)
            && !valid_installation_id(s),
        0 <= k < s.len() && ((s[k] as u32) < 0x20 || 0x7f <= (s[k] as u32) < 0xa0)
            ==> !valid_opaque_id(s) && !valid_installation_id(s),
{
    if s.len() > 0 && blank(s) {
        assert forall|i: int| 0 <= i < s.len() implies protocol_blank_char(#[trigger] s[i]) by {
            assert(white_space(s[i]));
        }
    }
    if 0 <= k < s.len() && ((s[k] as u32) < 0x20 || 0x7f <= (s[k] as u32) < 0xa0) {
        assert(control_char(s[k]));
    }
}

/// A receipt is sound exactly when its names are and its range is not empty and
/// ends at a safe number.
pub proof fn law_receipts(
    lane_id: Seq<char>,
    reply_to: Seq<char>,
    after_seq: u64,
    through_seq: u64,
    turn_token: Seq<char>,
    interaction_id: Seq<char>,
)
    ensures
        valid_receipt(lane_id, reply_to, after_seq, through_seq, turn_token, interaction_id) <==> {
            &&& valid_lane_id(lane_id)
            &&& valid_opaque_id(reply_to)
            &&& after_seq < through_seq <= 9_007_199_254_740_991
            &&& valid_turn_token(turn_token)
            &&& valid_opaque_id(interaction_id)
        },
{
}

/// A lane's name is one to a hundred and twenty-eight bytes long.
pub proof fn law_lane_names(s: Seq<char>)
    ensures
        valid_lane_name(s) <==> 1 <= s.len() && utf8_len(s) <= 128,
{
    crate::text::lemma_len_bounds(s);
}

// ---- times ----------------------------------------------------------------------

/// A written time is a day of the calendar: no month has more than thirty-one days,
/// four have thirty, and February has twenty-nine only in a leap year.
pub proof fn law_times_are_of_the_calendar(s: Seq<char>)
    requires
        valid_timestamp(s),
        !has_prefix(s, "epoch-ms:"@),
    ensures
        ({
            let year = number_at(s, 0, 4);
            let month = number_at(s, 5, 7);
            let day = number_at(s, 8, 10);
            &&& s.len() == 24
            &&& 1 <= year
            &&& 1 <= month <= 12
            &&& 1 <= day <= 31
            &&& (month == 4 || month == 6 || month == 9 || month == 11) ==> day <= 30
            &&& month == 2 ==> day <= 29
            &&& month == 2 && day == 29 ==> year % 4 == 0 && (year % 100 == 0 ==> year % 400 == 0)
            &&& number_at(s, 11, 13) < 24
            &&& number_at(s, 14, 16) < 60
            &&& number_at(s, 17, 19) < 60
        }),
{
}

/// Every day of the calendar can be written.
pub proof fn law_days_of_the_calendar_are_times(s: Seq<char>, year: nat, month: nat, day: nat)
    requires
        s.len() == 24,
        s[4] == '-' && s[7] == '-' && s[10] == 'T' && s[13] == ':' && s[16] == ':' && s[19] == '.'
            && s[23] == 'Z',
        forall|i: int|
            0 <= i < 23 && i != 4 && i != 7 && i != 10 && i != 13 && i != 16 && i != 19
                ==> is_digit(#[trigger] s[i]),
        number_at(s, 0, 4) == year,
        number_at(s, 5, 7) == month,
        number_at(s, 8, 10) == day,
        number_at(s, 11, 13) < 24,
        number_at(s, 14, 16) < 60,
        number_at(s, 17, 19) < 60,
        year >= 1,
        1 <= month <= 12,
        1 <= day,
        day <= 28 || (day <= 30 && month != 2) || (day == 31 && (month == 1 || month == 3 || month
            == 5 || month == 7 || month == 8 || month == 10 || month == 12)) || (day == 29 && year
            % 400 == 0) || (day == 29 && year % 4 == 0 && year % 100 != 0),
    ensures
        valid_timestamp(s),
{
    reveal_strlit("epoch-ms:");
    assert(is_digit(s[0]));
    if has_prefix(s, "epoch-ms:"@) {
        assert(s.take(9)[0] == "epoch-ms:"@[0]);
    }
    if year % 400 == 0 {
        assert(year % 4 == 0);
    }
    assert(iso_timestamp(s));
}

/// A time may also be a number of milliseconds, up to the largest safe number.
pub proof fn law_milliseconds_are_times(ms: Seq<char>)
    ensures
        all_digits(ms) && ms.len() <= 16 && digits_value(ms) <= 9_007_199_254_740_991
            <==> valid_timestamp("epoch-ms:"@ + ms),
{
    let s = "epoch-ms:"@ + ms;
    assert(s.take("epoch-ms:"@.len() as int) =~= "epoch-ms:"@);
    assert(s.skip("epoch-ms:"@.len() as int) =~= ms);
}

// ---- JSON -----------------------------------------------------------------------

/// Whether a character is written as itself in a JSON string.
pub open spec fn written_plainly(c: char) -> bool {
    (c as u32) >= 0x20 && c != '"' && c != '\\'
}

/// A character is written as itself, unless it is a quote, a backslash or a control
/// character; one of those is written behind a backslash, the others that have no
/// letter of their own by their number.
pub proof fn law_characters_are_escaped(c: char)
    ensures
        written_plainly(c) ==> json_escape(c) == seq![c],
        !written_plainly(c) ==> json_escape(c)[0] == '\\',
        c == '"' || c == '\\' ==> json_escape(c) == seq!['\\', c],
        c == '\n' ==> json_escape(c) == seq!['\\', 'n'],
        c == '\r' ==> json_escape(c) == seq!['\\', 'r'],
        c == '\t' ==> json_escape(c) == seq!['\\', 't'],
        (c as u32) == 8 ==> json_escape(c) == seq!['\\', 'b'],
        (c as u32) == 12 ==> json_escape(c) == seq!['\\', 'f'],
        (c as u32) < 0x20 && json_escape(c)[1] == 'u' ==> {
            let e = json_escape(c);
            &&& e.len() == 6
            &&& e[2] == '0' && e[3] == '0'
            &&& hex_value(e[4]) is Some && hex_value(e[5]) is Some
            &&& hex_value(e[4])->0 * 16 + hex_value(e[5])->0 == c as nat
        },
{
    let u = c as u32;
    if u < 0x20 {
        assert(u / 16 < 2 && u % 16 < 16);
        lemma_hex_digit((u / 16) as nat);
        lemma_hex_digit((u % 16) as nat);
    }
}

/// A JSON string is its characters, each escaped, in their order, between quotes.
pub proof fn law_strings_are_quoted(a: Seq<char>, b: Seq<char>, c: char)
    ensures
        json_string(Seq::empty()) == seq!['"', '"'],
        json_string(a.push(c)) == json_string(a).drop_last() + json_escape(c) + seq!['"'],
        json_escaped(a + b) == json_escaped(a) + json_escaped(b),
        (forall|i: int| 0 <= i < a.len() ==> written_plainly(#[trigger] a[i])) ==> json_string(a)
            == seq!['"'] + a + seq!['"'],
    decreases a.len() + b.len(),
{
    assert(json_string(Seq::<char>::empty()) =~= seq!['"', '"']);
    assert(a.push(c).drop_last() =~= a);
    assert(json_string(a.push(c)) =~= json_string(a).drop_last() + json_escape(c) + seq!['"']);
    if b.len() == 0 {
        assert(a + b =~= a);
        assert(json_escaped(a + b) =~= json_escaped(a) + json_escaped(b));
    } else {
        law_strings_are_quoted(a, b.drop_last(), c);
        assert((a + b).drop_last() =~= a + b.drop_last());
        assert(json_escaped(a + b) =~= json_escaped(a) + json_escaped(b));
    }
    if forall|i: int| 0 <= i < a.len() ==> written_plainly(#[trigger] a[i]) {
        lemma_plain_stays(a);
    }
}

proof fn lemma_plain_stays(a: Seq<char>)
    requires
        forall|i: int| 0 <= i < a.len() ==> written_plainly(#[trigger] a[i]),
    ensures
        json_escaped(a) == a,
    decreases a.len(),
{
    if a.len() > 0 {
        lemma_plain_stays(a.drop_last());
        assert(written_plainly(a[a.len() - 1]));
        assert(json_escaped(a) =~= a);
    } else {
        assert(json_escaped(a) =~= a);
    }
}

proof fn lemma_digits_end(s: Seq<char>, i: int, e: int)
    requires
        0 <= i <= e <= s.len(),
        forall|k: int| i <= k < e ==> is_digit(#[trigger] s[k]),
        e < s.len() ==> !is_digit(s[e]),
    ensures
        digits_end(s, i) == e,
    decreases e - i,
{
    if i < e {
        assert(is_digit(s[i]));
        lemma_digits_end(s, i + 1, e);
    }
}

/// A whole number without a leading zero is a number, and so is its negative, and
/// either with a fraction behind it.
pub proof fn law_decimals_are_numbers(whole: Seq<char>, fraction: Seq<char>)
    requires
        all_digits(whole),
        whole.len() == 1 || whole[0] != '0',
        all_digits(fraction),
    ensures
        json_number(whole),
        json_number(seq!['-'] + whole),
        json_number(whole + seq!['.'] + fraction),
        json_number(seq!['-'] + whole + seq!['.'] + fraction),
{
    assert(is_digit(whole[0]));
    lemma_digits_end(whole, 0, whole.len() as int);
    let n = seq!['-'] + whole;
    lemma_digits_end(n, 1, n.len() as int);
    let f = whole + seq!['.'] + fraction;
    assert(f[0] == whole[0]);
    assert(f[whole.len() as int] == '.');
    lemma_digits_end(f, 0, whole.len() as int);
    lemma_digits_end(f, whole.len() as int + 1, f.len() as int);
    let g = seq!['-'] + whole + seq!['.'] + fraction;
    assert(g[1] == whole[0]);
    assert(g[whole.len() as int + 1] == '.');
    lemma_digits_end(g, 1, whole.len() as int + 1);
    lemma_digits_end(g, whole.len() as int + 2, g.len() as int);
}

proof fn lemma_digits_until(s: Seq<char>, i: int)
    requires
        0 <= i <= s.len(),
    ensures
        i <= digits_end(s, i) <= s.len(),
        forall|k: int| i <= k < digits_end(s, i) ==> is_digit(#[trigger] s[k]),
    decreases s.len() - i,
{
    if i < s.len() && is_digit(s[i]) {
        lemma_digits_until(s, i + 1);
    }
}

/// A number ends in a digit, begins with a digit or a minus, and holds nothing but
/// digits, signs, a point and the letter of an exponent.
pub proof fn law_numbers_hold_digits(s: Seq<char>, k: int)
    requires
        json_number(s),
    ensures
        s.len() > 0,
        is_digit(s.last()),
        is_digit(s[0]) || s[0] == '-',
        0 <= k < s.len() ==> is_digit(s[k]) || s[k] == '-' || s[k] == '+' || s[k] == '.' || s[k]
            == 'e' || s[k] == 'E',
{
    let a: int = if s.len() > 0 && s[0] == '-' {
        1
    } else {
        0
    };
    lemma_digits_until(s, a);
    let b = digits_end(s, a);
    assert(is_digit(s[a]));
    assert(is_digit(s[b - 1]));
    if b + 1 <= s.len() {
        lemma_digits_until(s, b + 1);
        if digits_end(s, b + 1) > b + 1 {
            assert(is_digit(s[digits_end(s, b + 1) - 1]));
        }
    }
    let c = fraction_end(s, b)->0;
    if c + 1 <= s.len() {
        lemma_digits_until(s, c + 1);
        if digits_end(s, c + 1) > c + 1 {
            assert(is_digit(s[digits_end(s, c + 1) - 1]));
        }
    }
    if c + 2 <= s.len() {
        lemma_digits_until(s, c + 2);
        if digits_end(s, c + 2) > c + 2 {
            assert(is_digit(s[digits_end(s, c + 2) - 1]));
        }
    }
    assert(exponent_end(s, c) == Some(s.len() as int));
}

/// Under a key stands the first member of that name, and nothing where there is
/// none.
pub proof fn law_first_member_is_found(
    fields: Seq<(Seq<char>, JsonView)>,
    key: Seq<char>,
    at: int,
)
    ensures
        0 <= at < fields.len() && fields[at].0 == key && (forall|k: int|
            0 <= k < at ==> (#[trigger] fields[k]).0 != key) ==> JsonView::Object(fields).get(key)
            == Some(fields[at].1),
        (forall|k: int| 0 <= k < fields.len() ==> (#[trigger] fields[k]).0 != key)
            ==> JsonView::Object(fields).get(key) is None,
{
    if 0 <= at < fields.len() && fields[at].0 == key && forall|k: int|
        0 <= k < at ==> (#[trigger] fields[k]).0 != key {
        crate::trees::lemma_member(fields, key, 0, at);
    }
    if forall|k: int| 0 <= k < fields.len() ==> (#[trigger] fields[k]).0 != key {
        crate::trees::lemma_no_member(fields, key, 0);
    }
}

/// A note is kept as a line of its own: an object that holds the note, and when it
/// was made.
pub proof fn law_note_line_holds_the_note(text: Seq<char>, at: Seq<char>) -> (v: JsonView)
    requires
        forall|i: int| 0 <= i < at.len() ==> written_plainly(#[trigger] at[i]),
    ensures
        is_object_text(noted(text, at).drop_last(), v),
        noted(text, at).last() == '\n',
        v.get("note"@) == Some(JsonView::Text(text)),
        v.get("at"@) == Some(JsonView::Text(at)),
{
    reveal_strlit("note");
    reveal_strlit("at");
    reveal_strlit("{\"note\":");
    reveal_strlit(",\"at\":\"");
    reveal_strlit("\"}\n");
    let fields = seq![("note"@, JsonView::Text(text)), ("at"@, JsonView::Text(at))];
    let members = seq![("note"@, json_string(text)), ("at"@, json_string(at))];
    assert(written_as(members, fields));
    lemma_object(members, fields);
    lemma_found(fields);
    law_strings_are_quoted(at, Seq::empty(), ' ');
    law_strings_are_quoted("note"@, Seq::empty(), ' ');
    law_strings_are_quoted("at"@, Seq::empty(), ' ');
    let ms = crate::json::member_texts(members);
    assert(ms.len() == 2);
    assert(ms.drop_last() =~= seq![ms[0]]);
    assert(joined(seq![ms[0]], seq![',']) =~= ms[0]);
    assert(joined(ms, seq![',']) =~= ms[0] + seq![','] + ms[1]);
    assert(noted(text, at).drop_last() =~= object_text(members));
    JsonView::Object(fields)
}

// ---- hexadecimal ----------------------------------------------------------------

proof fn lemma_hex_digit(d: nat)
    requires
        d < 16,
    ensures
        hex_value(hex_digit(d)) == Some(d),
{
}

/// Bytes that are written as two digits each, the higher one first, are read back.
pub proof fn law_hex_reads_back(bytes: Seq<u8>, text: Seq<char>)
    requires
        text.len() == 2 * bytes.len(),
        forall|i: int|
            0 <= i < bytes.len() ==> {
                &&& hex_value(text[2 * i]) == Some((#[trigger] bytes[i] / 16) as nat)
                &&& hex_value(text[2 * i + 1]) == Some((bytes[i] % 16) as nat)
            },
    ensures
        hex_decoded(text) == Some(bytes),
{
    assert forall|k: int| 0 <= k < text.len() implies hex_value(#[trigger] text[k]) is Some by {
        let b = bytes[k / 2];
        assert(k == 2 * (k / 2) || k == 2 * (k / 2) + 1);
    }
    assert(hex_decoded(text)->0 =~= bytes) by {
        assert forall|i: int| 0 <= i < bytes.len() implies hex_decoded(text)->0[i]
            == #[trigger] bytes[i] by {
            let b = bytes[i];
            assert((b / 16) * 16 + b % 16 == b);
        }
    }
}

/// Each of the sixteen digits stands for its number, small or large.
pub proof fn law_hex_digits(d: nat)
    requires
        d < 16,
    ensures
        hex_value(hex_digit(d)) == Some(d),
        hex_value(crate::text::ascii_upper(hex_digit(d))) == Some(d),
{
}

// ---- the daemon's set-up --------------------------------------------------------

/// The daemon starts exactly when it has both or neither half of its certificate,
/// a token only with a secret, and on any address but the machine's own a token, a
/// secret and a certificate.
pub proof fn law_daemon_starts_when_protected(
    bind: Seq<char>,
    token: bool,
    no_secrets: bool,
    cert: bool,
    key: bool,
)
    ensures
        ({
            let own = bind == "127.0.0.1"@ || bind == "::1"@ || bind == "[::1]"@ || bind
                == "localhost"@;
            startup_fault(bind, token, no_secrets, cert, key) is None <==> {
                &&& cert == key
                &&& token ==> !no_secrets
                &&& !own ==> token && !no_secrets && cert
            }
        }),
{
}

/// A file beside another has the other's name and an ending of its own.
pub proof fn law_file_stands_beside(name: Seq<char>, default: Seq<char>, suffix: Seq<char>)
    ensures
        beside(Some(name), default, suffix).take(name.len() as int) == name,
        beside(Some(name), default, suffix).skip(name.len() as int) == suffix,
        beside(None, default, suffix) == beside(Some(default), name, suffix),
{
    assert((name + suffix).take(name.len() as int) =~= name);
    assert((name + suffix).skip(name.len() as int) =~= suffix);
}

// ---- trimming and shortening ----------------------------------------------------

/// Trimming takes away the blanks around a text, and no more.
pub proof fn law_trimming_takes_the_blanks(before: Seq<char>, core: Seq<char>, after: Seq<char>)
    requires
        blank(before),
        blank(after),
        core.len() > 0,
        !white_space(core[0]),
        !white_space(core.last()),
    ensures
        trimmed(before + core + after) == core,
{
    let s = before + core + after;
    assert forall|i: int| 0 <= i < before.len() implies white_space(#[trigger] s[i]) by {
        assert(s[i] == before[i]);
    }
    assert(s[before.len() as int] == core[0]);
    lemma_trimmed_start_at(s, before.len() as int);
    let t = s.skip(before.len() as int);
    assert(t =~= core + after);
    assert forall|i: int| core.len() <= i < t.len() implies white_space(#[trigger] t[i]) by {
        assert(t[i] == after[i - core.len()]);
    }
    assert(t[core.len() - 1] == core.last());
    lemma_trimmed_end_at(t, core.len() as int);
    assert(t.take(core.len() as int) =~= core);
}

proof fn lemma_bounded_is_shorter(s: Seq<char>, max_bytes: nat, max_chars: nat)
    ensures
        bounded(s, max_bytes, max_chars).len() <= s.len(),
        bounded(s, max_bytes, max_chars).len() == s.len() ==> bounded(s, max_bytes, max_chars)
            == s && (s.len() > 0 ==> fits(s, max_bytes, max_chars)),
    decreases s.len(),
{
    if s.len() > 0 && !fits(s, max_bytes, max_chars) {
        lemma_bounded_is_shorter(s.drop_last(), max_bytes, max_chars);
    }
}

/// A title is shown from its beginning: whole where it has at most a hundred and
/// twenty-eight characters and two hundred and fifty-six bytes.
pub proof fn law_title_is_shown_from_its_beginning(title: Seq<char>)
    ensures
        shown_title(title) is Some ==> {
            let t = shown_title(title)->0;
            &&& has_prefix(title, t)
            &&& 1 <= t.len() <= 128
            &&& utf8_len(t) <= 256
        },
        title.len() <= 128 && utf8_len(title) <= 256 ==> shown_title(title) == (if title.len()
            > 0 {
            Some(title)
        } else {
            None
        }),
        title.len() <= 256 && utf8_len(title) <= 256 ==> shown_chat_id(title) == (if title.len()
            > 0 {
            Some(title)
        } else {
            None
        }),
{
    if bounded(title, 256, 128).len() < title.len() {
        law_bounded_is_the_longest_prefix(title, 256, 128, title.len() as int);
    } else {
        lemma_bounded_is_shorter(title, 256, 128);
        assert(title.take(title.len() as int) =~= title);
    }
}

/// A confidence is left out, unknown, or a number.
pub proof fn law_confidence(text: Seq<char>)
    ensures
        valid_confidence(None),
        valid_confidence(Some(text)) <==> text == "null"@ || json_number(text),
{
}

/// A reply has a whole receipt or none of it.
pub proof fn law_optional_receipts(
    lane_id: Option<Seq<char>>,
    reply_to: Option<Seq<char>>,
    after_seq: Option<u64>,
    through_seq: Option<u64>,
)
    ensures
        valid_optional_receipt(lane_id, reply_to, after_seq, through_seq) <==> {
            let none = lane_id is None && reply_to is None && after_seq is None && through_seq
                is None;
            let all = lane_id is Some && reply_to is Some && after_seq is Some && through_seq
                is Some;
            none || (all && valid_lane_id(lane_id->0) && valid_opaque_id(reply_to->0)
                && after_seq->0 < through_seq->0 <= 9_007_199_254_740_991)
        },
{
}

} // verus!
