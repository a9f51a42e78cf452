//! Search over past sessions: bounds on what the session store hands out, and
//! the spoken summary of a search.
use vstd::prelude::*;
use vstd::string::*;

use crate::lanes::{MAX_ENRICHED_LANE_TITLE_CODEPOINTS, MAX_ENRICHED_LANE_TITLE_UTF8_BYTES};
use crate::proto::{MAX_OPAQUE_ID_BYTES, MAX_OPAQUE_ID_LENGTH};
use crate::text::{
    bounded, bounded_prefix, decimal, decimal_text, join_from, joined, opt_view, remove_char,
    views, without,
};

verus! {

/// Longest summary of a search, in bytes.
pub const MAX_SEARCH_RESULT_UTF8_BYTES: usize = 8192;

/// Longest summary of a search, in characters.
pub const MAX_SEARCH_RESULT_CODEPOINTS: usize = 4096;

/// What is said when the session store cannot be searched.
pub const SEARCH_UNAVAILABLE_MESSAGE: &'static str = "Search unavailable.";

/// The longest prefix of a text within both limits, nothing where it is empty.
pub open spec fn bounded_some(s: Seq<char>, max_bytes: nat, max_chars: nat) -> Option<Seq<char>> {
    if bounded(s, max_bytes, max_chars).len() > 0 {
        Some(bounded(s, max_bytes, max_chars))
    } else {
        None
    }
}

/// The longest prefix of a text within both limits, nothing where it is empty.
pub fn bounded_text(value: &str, max_bytes: usize, max_codepoints: usize) -> (r: Option<String>)
    ensures
        opt_view(r) == bounded_some(value@, max_bytes as nat, max_codepoints as nat),
{
    let p = bounded_prefix(value, max_bytes, max_codepoints);
    if p.is_empty() {
        None
    } else {
        Some(p.to_string())
    }
}

/// A title as it may be shown.
pub open spec fn shown_title(title: Seq<char>) -> Option<Seq<char>> {
    bounded_some(
        title,
        MAX_ENRICHED_LANE_TITLE_UTF8_BYTES as nat,
        MAX_ENRICHED_LANE_TITLE_CODEPOINTS as nat,
    )
}

/// A title as it may be shown; an empty one is none.
pub fn bounded_title(value: &str) -> (r: Option<String>)
    ensures
        opt_view(r) == shown_title(value@),
{
    bounded_text(
        value,
        MAX_ENRICHED_LANE_TITLE_UTF8_BYTES,
        MAX_ENRICHED_LANE_TITLE_CODEPOINTS,
    )
}

/// A chat's identifier as it may be shown.
pub open spec fn shown_chat_id(id: Seq<char>) -> Option<Seq<char>> {
    bounded_some(id, MAX_OPAQUE_ID_BYTES as nat, MAX_OPAQUE_ID_LENGTH as nat)
}

/// A chat's identifier as it may be shown; an empty one is none.
pub fn bounded_chat_id(value: &str) -> (r: Option<String>)
    ensures
        opt_view(r) == shown_chat_id(value@),
{
    bounded_text(value, MAX_OPAQUE_ID_BYTES, MAX_OPAQUE_ID_LENGTH)
}

/// The summary of a search, cut to its limits.
pub fn bounded_search_result(value: &str) -> (r: String)
    ensures
        r@ == bounded(
            value@,
            MAX_SEARCH_RESULT_UTF8_BYTES as nat,
            MAX_SEARCH_RESULT_CODEPOINTS as nat,
        ),
{
    bounded_prefix(value, MAX_SEARCH_RESULT_UTF8_BYTES, MAX_SEARCH_RESULT_CODEPOINTS).to_string()
}

/// The search phrase without its quotes, so that the store's search takes it
/// for words.
pub fn search_phrase(query: &str) -> (r: String)
    ensures
        r@ == without(query@, '"'),
{
    remove_char(query, '"')
}

/// A session that a search found.
#[derive(Debug)]
pub struct SearchRow {
    pub chat_id: String,
    pub title: String,
    /// Epoch seconds of its latest message.
    pub latest: u64,
}

/// A found session as a value.
pub struct SearchRowView {
    pub chat_id: Seq<char>,
    pub title: Seq<char>,
    pub latest: u64,
}

impl View for SearchRow {
    type V = SearchRowView;

    open spec fn view(&self) -> SearchRowView {
        SearchRowView { chat_id: self.chat_id@, title: self.title@, latest: self.latest }
    }
}

/// The values of a run of found sessions.
pub open spec fn row_views(v: Seq<SearchRow>) -> Seq<SearchRowView> {
    Seq::new(v.len(), |i: int| v[i]@)
}

/// Whole days from `latest` to `now`, zero where it is later.
pub open spec fn days_ago(latest: u64, now: u64) -> nat {
    if now < latest {
        0
    } else {
        ((now - latest) / 86400) as nat
    }
}

/// An age in days, in words.
pub open spec fn age_in_days(days: nat) -> Seq<char> {
    if days == 0 {
        "today"@
    } else {
        decimal(days) + "d ago"@
    }
}

/// What is said of a found session; nothing where it has no identifier.
pub open spec fn row_words(row: SearchRowView, now: u64) -> Option<Seq<char>> {
    match shown_chat_id(row.chat_id) {
        None => None,
        Some(id) => {
            let title = match shown_title(row.title) {
                Some(t) => t,
                None => "untitled"@,
            };
            Some(id + ": "@ + title + " ("@ + age_in_days(days_ago(row.latest, now)) + ")"@)
        },
    }
}

/// What is said of the first `n` found sessions.
pub open spec fn rows_words(rows: Seq<SearchRowView>, now: u64, n: int) -> Seq<Seq<char>>
    decreases n,
{
    if n <= 0 || n > rows.len() {
        Seq::empty()
    } else {
        let before = rows_words(rows, now, n - 1);
        match row_words(rows[n - 1], now) {
            Some(w) => before.push(w),
            None => before,
        }
    }
}

/// The spoken summary of a search.
pub open spec fn search_words(rows: Seq<SearchRowView>, now: u64) -> Seq<char> {
    let words = rows_words(rows, now, rows.len() as int);
    if words.len() == 0 {
        "No conversations matched."@
    } else {
        bounded(
            joined(words, "; "@),
            MAX_SEARCH_RESULT_UTF8_BYTES as nat,
            MAX_SEARCH_RESULT_CODEPOINTS as nat,
        )
    }
}

fn row_text(row: &SearchRow, now: u64) -> (r: Option<String>)
    ensures
        opt_view(r) == row_words(row@, now),
{
    let mut s = match bounded_chat_id(row.chat_id.as_str()) {
        Some(id) => id,
        None => {
            return None;
        },
    };
    s.append(": ");
    match bounded_title(row.title.as_str()) {
        Some(t) => s.append(t.as_str()),
        None => s.append("untitled"),
    }
    s.append(" (");
    let elapsed: u64 = if now < row.latest {
        0
    } else {
        now - row.latest
    };
    let days: u64 = elapsed / 86400;
    if days == 0 {
        s.append("today");
    } else {
        let mut d = decimal_text(days as u128);
        d.append("d ago");
        s.append(d.as_str());
    }
    s.append(")");
    Some(s)
}

/// The spoken summary of a search at `now` in seconds.
pub fn search_summary(rows: &Vec<SearchRow>, now: u64) -> (r: String)
    ensures
        r@ == search_words(row_views(rows@), now),
{
    let ghost all = row_views(rows@);
    let mut hits: Vec<String> = Vec::new();
    assert(views(hits@) =~= rows_words(all, now, 0));
    for i in 0..rows.len()
        invariant
            all == row_views(rows@),
            views(hits@) == rows_words(all, now, i as int),
    {
        assert(all[i as int] == rows@[i as int]@);
        match row_text(&rows[i], now) {
            Some(t) => {
                let ghost before = hits@;
                let ghost shown = t@;
                hits.push(t);
                assert(views(hits@) =~= views(before).push(shown));
            },
            None => {},
        }
    }
    assert(views(hits@).len() == hits@.len());
    if hits.len() == 0 {
        return "No conversations matched.".to_string();
    }
    assert(views(hits@).skip(0) =~= views(hits@));
    let all_hits = join_from(&hits, 0, "; ");
    bounded_search_result(all_hits.as_str())
}

/// The first `n` of the latest titles as they may be shown: those with an
/// identifier and a title.
pub open spec fn shown_titles(rows: Seq<(Seq<char>, Seq<char>)>, n: int) -> Seq<
    (Seq<char>, Seq<char>),
>
    decreases n,
{
    if n <= 0 || n > rows.len() {
        Seq::empty()
    } else {
        let before = shown_titles(rows, n - 1);
        match (shown_chat_id(rows[n - 1].0), shown_title(rows[n - 1].1)) {
            (Some(id), Some(t)) => before.push((id, t)),
            _ => before,
        }
    }
}

/// The values of a run of pairs of texts.
pub open spec fn pair_views(v: Seq<(String, String)>) -> Seq<(Seq<char>, Seq<char>)> {
    Seq::new(v.len(), |i: int| (v[i].0@, v[i].1@))
}

/// The latest titles as they may be shown.
pub fn bounded_titles(rows: &Vec<(String, String)>) -> (r: Vec<(String, String)>)
    ensures
        pair_views(r@) == shown_titles(pair_views(rows@), rows@.len() as int),
{
    let ghost all = pair_views(rows@);
    let mut out: Vec<(String, String)> = Vec::new();
    assert(pair_views(out@) =~= shown_titles(all, 0));
    for i in 0..rows.len()
        invariant
            all == pair_views(rows@),
            pair_views(out@) == shown_titles(all, i as int),
    {
        assert(all[i as int] == (rows@[i as int].0@, rows@[i as int].1@));
        match (bounded_chat_id(rows[i].0.as_str()), bounded_title(rows[i].1.as_str())) {
            (Some(id), Some(t)) => {
                let ghost before = out@;
                let ghost p = (id@, t@);
                out.push((id, t));
                assert(pair_views(out@) =~= pair_views(before).push(p));
            },
            _ => {},
        }
    }
    out
}

/// An age is spoken in whole days: today, or their number; a time that is still
/// to come counts as today.
pub proof fn law_days_are_whole(latest: u64, days: nat, rest: nat, now: u64)
    requires
        rest < 86400,
        now == latest + days * 86400 + rest,
    ensures
        days == 0 ==> age_in_days(days_ago(latest, now)) == "today"@,
        days > 0 ==> age_in_days(days_ago(latest, now)) == decimal(days) + "d ago"@,
{
    assert((days * 86400 + rest) / 86400 == days) by (nonlinear_arith)
        requires
            rest < 86400,
            days >= 0,
            rest >= 0,
    ;
}

/// A found session is spoken of by its identifier, its title and its age, and a
/// session without a title is called untitled.
pub proof fn law_found_session_is_named(row: SearchRowView, now: u64)
    requires
        shown_chat_id(row.chat_id) is Some,
    ensures
        shown_title(row.title) is Some ==> row_words(row, now) == Some(
            shown_chat_id(row.chat_id)->0 + ": "@ + shown_title(row.title)->0 + " ("@
                + age_in_days(days_ago(row.latest, now)) + ")"@,
        ),
        shown_title(row.title) is None ==> row_words(row, now) == Some(
            shown_chat_id(row.chat_id)->0 + ": untitled ("@ + age_in_days(
                days_ago(row.latest, now),
            ) + ")"@,
        ),
{
    reveal_strlit(": untitled (");
    reveal_strlit(": ");
    reveal_strlit("untitled");
    reveal_strlit(" (");
    assert(": untitled ("@ =~= ": "@ + "untitled"@ + " ("@);
    let id = shown_chat_id(row.chat_id)->0;
    let age = age_in_days(days_ago(row.latest, now));
    assert(id + ": "@ + "untitled"@ + " ("@ + age + ")"@ =~= id + ": untitled ("@ + age + ")"@);
}

/// Nothing is said of a search but what it found: no session that is said was not
/// found, every found session with an identifier is said, and they come in the
/// order in which they were found.
pub proof fn law_every_found_session_is_said(rows: Seq<SearchRowView>, now: u64, n: int, i: int)
    requires
        0 <= i < n <= rows.len(),
    ensures
        row_words(rows[i], now) is Some ==> rows_words(rows, now, n).contains(
            row_words(rows[i], now)->0,
        ),
        rows_words(rows, now, n).len() <= n,
        forall|k: int|
            0 <= k < rows_words(rows, now, n).len() ==> exists|j: int|
                0 <= j < n && row_words(rows[j], now) == Some(
                    #[trigger] rows_words(rows, now, n)[k],
                ),
    decreases n,
{
    let w = rows_words(rows, now, n);
    let before = rows_words(rows, now, n - 1);
    if n > 1 {
        let j = if i < n - 1 {
            i
        } else {
            0
        };
        law_every_found_session_is_said(rows, now, n - 1, j);
    }
    if row_words(rows[n - 1], now) is Some {
        assert(w[w.len() - 1] == row_words(rows[n - 1], now)->0);
        if i < n - 1 && row_words(rows[i], now) is Some {
            let k = choose|k: int|
                0 <= k < before.len() && before[k] == row_words(rows[i], now)->0;
            assert(w[k] == before[k]);
        }
    }
    assert forall|k: int| 0 <= k < w.len() implies exists|j: int|
        0 <= j < n && row_words(rows[j], now) == Some(#[trigger] w[k]) by {
        if k < before.len() {
            assert(w[k] == before[k]);
            let j = choose|j: int| 0 <= j < n - 1 && row_words(rows[j], now) == Some(before[k]);
            assert(row_words(rows[j], now) == Some(w[k]));
        } else {
            assert(row_words(rows[n - 1], now) == Some(w[k]));
        }
    }
}

/// The titles that are shown are those of the rows that have an identifier and a
/// title, each with its own.
pub proof fn law_titles_go_with_their_sessions(
    rows: Seq<(Seq<char>, Seq<char>)>,
    n: int,
    i: int,
    k: int,
)
    requires
        0 <= i < n <= rows.len(),
    ensures
        shown_chat_id(rows[i].0) is Some && shown_title(rows[i].1) is Some ==> shown_titles(
            rows,
            n,
        ).contains((shown_chat_id(rows[i].0)->0, shown_title(rows[i].1)->0)),
        0 <= k < shown_titles(rows, n).len() ==> exists|j: int|
            0 <= j < n && shown_chat_id((#[trigger] rows[j]).0) == Some(shown_titles(rows, n)[k].0)
                && shown_title(rows[j].1) == Some(shown_titles(rows, n)[k].1),
    decreases n,
{
    let v = shown_titles(rows, n);
    let before = shown_titles(rows, n - 1);
    if n > 1 {
        law_titles_go_with_their_sessions(
            rows,
            n - 1,
            if i < n - 1 {
                i
            } else {
                0
            },
            k,
        );
    } else {
        assert(before.len() == 0);
    }
    if shown_chat_id(rows[i].0) is Some && shown_title(rows[i].1) is Some {
        let x = (shown_chat_id(rows[i].0)->0, shown_title(rows[i].1)->0);
        if i < n - 1 {
            let j = choose|j: int| 0 <= j < before.len() && before[j] == x;
            assert(v[j] == x);
        } else {
            assert(v[before.len() as int] == x);
        }
    }
    if 0 <= k < v.len() {
        if k < before.len() {
            let j = choose|j: int|
                0 <= j < n - 1 && shown_chat_id((#[trigger] rows[j]).0) == Some(before[k].0)
                    && shown_title(rows[j].1) == Some(before[k].1);
            assert(shown_chat_id(rows[j].0) == Some(v[k].0));
        } else {
            assert(shown_chat_id(rows[n - 1].0) == Some(v[k].0));
        }
    }
}

/// What a search says names what was found, one after the other, from the first
/// one on; it says that nothing was found exactly when nothing was.
pub proof fn law_search_says_what_was_found(rows: Seq<SearchRowView>, now: u64)
    ensures
        ({
            let found = rows_words(rows, now, rows.len() as int);
            let all = joined(found, "; "@);
            let said = search_words(rows, now);
            &&& found.len() == 0 ==> said == "No conversations matched."@
            &&& found.len() > 0 && all.len() <= 4_096 && crate::text::utf8_len(all) <= 8_192
                ==> said == all
            &&& found.len() > 0 ==> said == bounded(all, 8_192, 4_096)
        }),
{
}

} // verus!
