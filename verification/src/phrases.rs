//! What the phrases of the meta grammar mean, for every content, target or name
//! that may follow them.
use vstd::prelude::*;
use vstd::utf8::*;

use crate::lanes::LaneView;
use crate::lookup::{
    law_plain_words_are_stable, lemma_plain_words_are_lower, meant_lane, normalized, plain_words,
    squeezed,
};
use crate::meta::{
    first_of, has_prefix_ci, is_list, is_note, meaning, note_content, strip_ci, ActionView,
};
use crate::text::{
    ascii_lower, blank, has_prefix, joined, law_blank_trims_to_nothing, lemma_pieces_nonempty,
    lemma_trimmed_end_at, lemma_trimmed_start_at, lowercased, occurs, pieces, plain_char, trimmed,
    trimmed_end, trimmed_start, white_space,
};

verus! {

// ---- words ----------------------------------------------------------------------

/// The words of a text, put together again, are the text.
proof fn lemma_joined_pieces(s: Seq<char>)
    ensures
        joined(pieces(s, ' '), " "@) == s,
    decreases s.len(),
{
    reveal_strlit(" ");
    if s.len() > 0 {
        let d = s.drop_last();
        let before = pieces(d, ' ');
        lemma_joined_pieces(d);
        lemma_pieces_nonempty(d, ' ');
        if s.last() == ' ' {
            let w = before.push(Seq::<char>::empty());
            assert(w.drop_last() =~= before);
            assert(joined(w, " "@) =~= d + " "@ + Seq::<char>::empty());
            assert(d + " "@ + Seq::<char>::empty() =~= s);
        } else {
            let w = before.update(before.len() - 1, before.last().push(s.last()));
            if before.len() == 1 {
                assert(joined(w, " "@) =~= s);
            } else {
                assert(w.drop_last() =~= before.drop_last());
                assert(joined(before, " "@) == joined(before.drop_last(), " "@) + " "@
                    + before.last());
                assert(joined(w, " "@) == joined(w.drop_last(), " "@) + " "@ + w.last());
                assert(joined(w, " "@) =~= joined(before, " "@).push(s.last()));
                assert(d.push(s.last()) =~= s);
            }
        }
    } else {
        assert(joined(pieces(s, ' '), " "@) =~= s);
    }
}

/// A text begins with its first word, which ends at the first space.
proof fn lemma_first_word(s: Seq<char>)
    ensures
        ({
            let w = pieces(s, ' ');
            &&& w.len() > 0
            &&& w[0].len() <= s.len()
            &&& w[0] == s.take(w[0].len() as int)
            &&& (w.len() == 1 ==> w[0] == s)
            &&& (w.len() > 1 ==> w[0].len() < s.len() && s[w[0].len() as int] == ' ')
            &&& forall|i: int| 0 <= i < w[0].len() ==> #[trigger] w[0][i] != ' '
        }),
    decreases s.len(),
{
    if s.len() > 0 {
        let d = s.drop_last();
        lemma_first_word(d);
        let before = pieces(d, ' ');
        let w = pieces(s, ' ');
        if before.len() == 1 {
            if s.last() == ' ' {
                assert(w[0] =~= s.take(w[0].len() as int));
            } else {
                assert(w[0] =~= s);
            }
        } else {
            assert(w[0] == before[0]);
            assert(w[0] =~= s.take(w[0].len() as int));
        }
    }
}

/// A word is its own only piece.
proof fn lemma_pieces_word(w: Seq<char>)
    requires
        forall|i: int| 0 <= i < w.len() ==> #[trigger] w[i] != ' ',
    ensures
        pieces(w, ' ') == seq![w],
    decreases w.len(),
{
    if w.len() > 0 {
        let d = w.drop_last();
        assert forall|i: int| 0 <= i < d.len() implies #[trigger] d[i] != ' ' by {
            assert(d[i] == w[i]);
        }
        lemma_pieces_word(d);
        assert(w[w.len() - 1] != ' ');
        assert(d.push(w.last()) =~= w);
        assert(pieces(w, ' ') =~= seq![w]);
    } else {
        assert(w =~= Seq::<char>::empty());
    }
}

/// The words of two texts with a space between them are those of both.
proof fn lemma_pieces_more(a: Seq<char>, b: Seq<char>)
    ensures
        pieces(a.push(' ') + b, ' ') == pieces(a, ' ') + pieces(b, ' '),
    decreases b.len(),
{
    let s = a.push(' ') + b;
    if b.len() == 0 {
        assert(s =~= a.push(' '));
        assert(s.drop_last() =~= a);
        assert(pieces(s, ' ') =~= pieces(a, ' ') + pieces(b, ' '));
    } else {
        let d = b.drop_last();
        lemma_pieces_more(a, d);
        lemma_pieces_nonempty(d, ' ');
        assert(s.drop_last() =~= a.push(' ') + d);
        assert(pieces(s, ' ') =~= pieces(a, ' ') + pieces(b, ' '));
    }
}

/// A space after a run of characters without one ends the first word.
proof fn lemma_word_ends(s: Seq<char>, k: int)
    requires
        0 <= k < s.len(),
        s[k] == ' ',
        forall|i: int| 0 <= i < k ==> #[trigger] s[i] != ' ',
    ensures
        pieces(s, ' ')[0] == s.take(k),
        pieces(s, ' ').len() > 1,
{
    lemma_first_word(s);
    let w = pieces(s, ' ');
    let n = w[0].len() as int;
    if w.len() == 1 {
        assert(w[0][k] != ' ');
    } else if n < k {
        assert(s[n] != ' ');
    } else if k < n {
        assert(w[0][k] == s[k]);
    }
}

/// Where the text inside the white space begins and ends.
proof fn lemma_inside(s: Seq<char>) -> (r: (int, int))
    requires
        !blank(s),
    ensures
        0 <= r.0 < r.1 <= s.len(),
        trimmed(s) == s.subrange(r.0, r.1),
        trimmed_start(s) == s.skip(r.0),
        trimmed_end(s) == s.take(r.1),
        !white_space(s[r.0]),
        !white_space(s[r.1 - 1]),
    decreases s.len(),
{
    let k = choose|k: int| 0 <= k < s.len() && !white_space(#[trigger] s[k]);
    let a = first_inside(s, 0);
    lemma_first_inside(s, 0, k);
    let b = last_inside(s, s.len() as int);
    lemma_last_inside(s, s.len() as int, k);
    lemma_trimmed_start_at(s, a);
    lemma_trimmed_end_at(s, b);
    let t = s.skip(a);
    assert forall|i: int| b - a <= i < t.len() implies white_space(#[trigger] t[i]) by {
        assert(t[i] == s[a + i]);
    }
    lemma_trimmed_end_at(t, b - a);
    assert(t.take(b - a) =~= s.subrange(a, b));
    (a, b)
}

spec fn first_inside(s: Seq<char>, i: int) -> int
    decreases s.len() - i,
{
    if 0 <= i < s.len() && white_space(s[i]) {
        first_inside(s, i + 1)
    } else {
        i
    }
}

spec fn last_inside(s: Seq<char>, n: int) -> int
    decreases n,
{
    if 0 < n <= s.len() && white_space(s[n - 1]) {
        last_inside(s, n - 1)
    } else {
        n
    }
}

proof fn lemma_first_inside(s: Seq<char>, i: int, k: int)
    requires
        0 <= i <= k < s.len(),
        !white_space(s[k]),
        forall|j: int| 0 <= j < i ==> white_space(#[trigger] s[j]),
    ensures
        i <= first_inside(s, i) <= k,
        !white_space(s[first_inside(s, i)]),
        forall|j: int| 0 <= j < first_inside(s, i) ==> white_space(#[trigger] s[j]),
    decreases k - i,
{
    if white_space(s[i]) {
        lemma_first_inside(s, i + 1, k);
    }
}

proof fn lemma_last_inside(s: Seq<char>, n: int, k: int)
    requires
        0 <= k < n <= s.len(),
        !white_space(s[k]),
        forall|j: int| n <= j < s.len() ==> white_space(#[trigger] s[j]),
    ensures
        k < last_inside(s, n) <= n,
        !white_space(s[last_inside(s, n) - 1]),
        forall|j: int| last_inside(s, n) <= j < s.len() ==> white_space(#[trigger] s[j]),
    decreases n,
{
    if white_space(s[n - 1]) {
        lemma_last_inside(s, n - 1, k);
    }
}

proof fn lemma_squeezed_begins(s: Seq<char>)
    requires
        s.len() > 0,
        plain_char(s[0]),
    ensures
        squeezed(s).len() > 0,
        squeezed(s)[0] == s[0],
    decreases s.len(),
{
    reveal_with_fuel(squeezed, 2);
    let d = s.drop_last();
    if d.len() > 0 {
        lemma_squeezed_begins(d);
    } else {
        assert(squeezed(d).len() == 0);
    }
}

// ---- notes ----------------------------------------------------------------------

/// Whether `q` is the lower-case text `p`, said in any ASCII case.
pub open spec fn said_as(q: Seq<char>, p: Seq<char>) -> bool {
    q.len() == p.len() && forall|i: int| 0 <= i < p.len() ==> ascii_lower(#[trigger] q[i]) == p[i]
}

/// Whether the lower case of a text is known to begin with a phrase: the text is
/// ASCII, or the full Unicode mapping gives such a beginning.
pub open spec fn begins_with(q: Seq<char>, c: Seq<char>, p: Seq<char>) -> bool {
    ||| is_ascii_chars(c)
    ||| (has_prefix(lowercased(trimmed(q + c)), p) && normalized(q + c).len() > 0)
}

proof fn lemma_utterance(q: Seq<char>, c: Seq<char>, p: Seq<char>) -> (r: (int, int))
    requires
        said_as(q, p),
        p.len() > 0,
        plain_char(p[0]),
        is_ascii_chars(p),
        !blank(c),
    ensures
        0 <= r.0 < r.1 <= c.len(),
        trimmed(q + c) == q + c.take(r.1),
        trimmed_end(c) == c.take(r.1),
        trimmed(c) == c.subrange(r.0, r.1),
        trimmed(trimmed_start(c.take(r.1))) == trimmed(c),
        is_ascii_chars(c) ==> has_prefix(lowercased(trimmed(q + c)), p) && normalized(q + c).len()
            > 0,
{
    let (a, b) = lemma_inside(c);
    let s = q + c;
    let e = c.take(b);
    assert(ascii_lower(q[0]) == p[0]);
    lemma_trimmed_start_at(s, 0);
    assert(s.skip(0) =~= s);
    assert(s[q.len() + b - 1] == c[b - 1]);
    assert forall|i: int| q.len() + b <= i < s.len() implies white_space(#[trigger] s[i]) by {
        let j = i - q.len();
        assert(s[i] == c[j]);
        lemma_after_end(c, b, j);
    }
    lemma_trimmed_end_at(s, q.len() + b);
    assert(s.take(q.len() + b) =~= q + e);
    assert forall|i: int| 0 <= i < a implies white_space(#[trigger] e[i]) by {
        lemma_before_start(c, a, i);
    }
    lemma_trimmed_start_at(e, a);
    let m = e.skip(a);
    assert(m =~= c.subrange(a, b));
    lemma_trimmed_start_at(m, 0);
    assert(m.skip(0) =~= m);
    lemma_trimmed_end_at(m, m.len() as int);
    assert(m.take(m.len() as int) =~= m);
    if is_ascii_chars(c) {
        assert forall|i: int| 0 <= i < s.len() implies '\0' <= #[trigger] s[i] <= '\u{7f}' by {
            if i < q.len() {
                assert(ascii_lower(q[i]) == p[i]);
                assert('\0' <= p[i] <= '\u{7f}');
            } else {
                assert(s[i] == c[i - q.len()]);
            }
        }
        assert(is_ascii_chars(s));
        let t = q + e;
        assert forall|i: int| 0 <= i < t.len() implies '\0' <= #[trigger] t[i] <= '\u{7f}' by {
            assert(t[i] == s[i]);
        }
        assert(is_ascii_chars(t));
        let l = lowercased(t);
        assert forall|i: int| 0 <= i < p.len() implies l[i] == p[i] by {
            assert(ascii_lower(q[i]) == p[i]);
            assert(t[i] == q[i]);
        }
        assert(l.take(p.len() as int) =~= p);
        let z = lowercased(s);
        assert(z[0] == p[0]);
        lemma_squeezed_begins(z);
        law_blank_trims_to_nothing(squeezed(z));
    }
    (a, b)
}

proof fn lemma_after_end(c: Seq<char>, b: int, j: int)
    requires
        0 < b <= j < c.len(),
        trimmed_end(c) == c.take(b),
    ensures
        white_space(c[j]),
    decreases c.len(),
{
    if white_space(c.last()) {
        if j < c.len() - 1 {
            let d = c.drop_last();
            assert(d.take(b) =~= c.take(b));
            lemma_after_end(d, b, j);
        }
    } else {
        assert(c.len() == c.take(b).len());
    }
}

proof fn lemma_before_start(c: Seq<char>, a: int, i: int)
    requires
        0 <= i < a <= c.len(),
        trimmed_start(c) == c.skip(a),
    ensures
        white_space(c[i]),
    decreases a,
{
    if white_space(c[0]) {
        if i > 0 {
            let d = c.drop_first();
            assert(d.skip(a - 1) =~= c.skip(a));
            lemma_before_start(d, a - 1, i - 1);
            assert(d[i - 1] == c[i]);
        }
    } else {
        assert(c.len() == c.skip(a).len());
    }
}

/// What a phrase with its first word of `k` characters says.
proof fn lemma_noted(
    q: Seq<char>,
    c: Seq<char>,
    p: Seq<char>,
    k: int,
    lanes: Seq<LaneView>,
)
    requires
        said_as(q, p),
        begins_with(q, c, p),
        0 < k < p.len(),
        p[k] == ' ',
        forall|i: int| 0 <= i < k ==> plain_char(#[trigger] p[i]),
        is_ascii_chars(p),
        p.take(k) == "note"@ || p.take(k) == "remember"@ || p.take(k) == "keep"@,
        !blank(c),
        note_content(q + trimmed_end(c)) == strip_ci(q + trimmed_end(c), p),
    ensures
        meaning(q + c, lanes) == ActionView::Note(trimmed(c)),
{
    assert(plain_char(p[0]));
    let (a, b) = lemma_utterance(q, c, p);
    let t = trimmed(q + c);
    let l = lowercased(t);
    assert(l.take(p.len() as int) == p);
    assert forall|i: int| 0 <= i < k implies #[trigger] l[i] != ' ' by {
        assert(l.take(p.len() as int)[i] == p[i]);
    }
    assert(l.take(p.len() as int)[k] == p[k]);
    lemma_word_ends(l, k);
    assert(l.take(k) =~= p.take(k));
    assert(is_note(q + c));
    let e = c.take(b);
    assert(t.skip(p.len() as int) =~= e);
    assert forall|i: int| 0 <= i < p.len() implies ascii_lower(#[trigger] t[i]) == p[i] by {
        assert(t[i] == q[i]);
    }
    assert(has_prefix_ci(t, p));
    law_blank_trims_to_nothing(c);
}

/// What is said after a note phrase is kept as a note, as it was said, without
/// the white space around it, whatever the lanes are and in whatever case the
/// phrase is. A phrase gives way to a longer one.
pub proof fn law_note_phrases_keep_what_follows(
    q: Seq<char>,
    c: Seq<char>,
    lanes: Seq<LaneView>,
)
    requires
        trimmed(c).len() > 0,
    ensures
        said_as(q, "keep in mind that "@) && begins_with(q, c, "keep in mind that "@) ==> meaning(
            q + c,
            lanes,
        ) == ActionView::Note(trimmed(c)),
        said_as(q, "remember that "@) && begins_with(q, c, "remember that "@) ==> meaning(
            q + c,
            lanes,
        ) == ActionView::Note(trimmed(c)),
        said_as(q, "note that "@) && begins_with(q, c, "note that "@) ==> meaning(q + c, lanes)
            == ActionView::Note(trimmed(c)),
        said_as(q, "remember "@) && begins_with(q, c, "remember "@) && !has_prefix_ci(
            trimmed_end(c),
            "that "@,
        ) ==> meaning(q + c, lanes) == ActionView::Note(trimmed(c)),
        said_as(q, "note "@) && begins_with(q, c, "note "@) && !has_prefix_ci(
            trimmed_end(c),
            "that "@,
        ) ==> meaning(q + c, lanes) == ActionView::Note(trimmed(c)),
        said_as(q, "keep "@) && begins_with(q, c, "keep "@) && !has_prefix_ci(
            trimmed_end(c),
            "in mind that "@,
        ) ==> meaning(q + c, lanes) == ActionView::Note(trimmed(c)),
{
    law_blank_trims_to_nothing(c);
    if said_as(q, "keep in mind that "@) && begins_with(q, c, "keep in mind that "@) {
        lemma_keep_in_mind_that(q, c, lanes);
    }
    if said_as(q, "remember that "@) && begins_with(q, c, "remember that "@) {
        lemma_remember_that(q, c, lanes);
    }
    if said_as(q, "note that "@) && begins_with(q, c, "note that "@) {
        lemma_note_that(q, c, lanes);
    }
    if said_as(q, "remember "@) && begins_with(q, c, "remember "@) && !has_prefix_ci(
        trimmed_end(c),
        "that "@,
    ) {
        lemma_remember(q, c, lanes);
    }
    if said_as(q, "note "@) && begins_with(q, c, "note "@) && !has_prefix_ci(
        trimmed_end(c),
        "that "@,
    ) {
        lemma_note(q, c, lanes);
    }
    if said_as(q, "keep "@) && begins_with(q, c, "keep "@) && !has_prefix_ci(
        trimmed_end(c),
        "in mind that "@,
    ) {
        lemma_keep(q, c, lanes);
    }
}

/// A phrase that begins with another letter is not said.
proof fn lemma_other_letter(q: Seq<char>, e: Seq<char>, p: Seq<char>, other: Seq<char>)
    requires
        said_as(q, p),
        p.len() > 0,
        other.len() > 0,
        p[0] != other[0],
    ensures
        !has_prefix_ci(q + e, other),
{
    assert(ascii_lower(q[0]) == p[0]);
    assert((q + e)[0] == q[0]);
}

proof fn lemma_keep_in_mind_that(q: Seq<char>, c: Seq<char>, lanes: Seq<LaneView>)
    requires
        said_as(q, "keep in mind that "@),
        begins_with(q, c, "keep in mind that "@),
        !blank(c),
    ensures
        meaning(q + c, lanes) == ActionView::Note(trimmed(c)),
{
    let p = "keep in mind that "@;
    reveal_strlit("keep in mind that ");
    reveal_strlit("keep");
    assert(p.take(4) =~= "keep"@);
    lemma_longer(q, trimmed_end(c), p);
    lemma_noted(q, c, p, 4, lanes);
}

proof fn lemma_remember_that(q: Seq<char>, c: Seq<char>, lanes: Seq<LaneView>)
    requires
        said_as(q, "remember that "@),
        begins_with(q, c, "remember that "@),
        !blank(c),
    ensures
        meaning(q + c, lanes) == ActionView::Note(trimmed(c)),
{
    let p = "remember that "@;
    reveal_strlit("remember that ");
    reveal_strlit("remember");
    assert(p.take(8) =~= "remember"@);
    assert("keep in mind that "@.len() > 0 && "keep in mind that "@[0] == 'k') by {
        reveal_strlit("keep in mind that ");
    }
    lemma_other_letter(q, trimmed_end(c), p, "keep in mind that "@);
    lemma_longer(q, trimmed_end(c), p);
    lemma_noted(q, c, p, 8, lanes);
}

proof fn lemma_note_that(q: Seq<char>, c: Seq<char>, lanes: Seq<LaneView>)
    requires
        said_as(q, "note that "@),
        begins_with(q, c, "note that "@),
        !blank(c),
    ensures
        meaning(q + c, lanes) == ActionView::Note(trimmed(c)),
{
    let p = "note that "@;
    reveal_strlit("note that ");
    reveal_strlit("note");
    assert(p.take(4) =~= "note"@);
    assert("keep in mind that "@.len() > 0 && "keep in mind that "@[0] == 'k') by {
        reveal_strlit("keep in mind that ");
    }
    assert("remember that "@.len() > 0 && "remember that "@[0] == 'r') by {
        reveal_strlit("remember that ");
    }
    lemma_other_letter(q, trimmed_end(c), p, "keep in mind that "@);
    lemma_other_letter(q, trimmed_end(c), p, "remember that "@);
    lemma_longer(q, trimmed_end(c), p);
    lemma_noted(q, c, p, 4, lanes);
}

proof fn lemma_remember(q: Seq<char>, c: Seq<char>, lanes: Seq<LaneView>)
    requires
        said_as(q, "remember "@),
        begins_with(q, c, "remember "@),
        !has_prefix_ci(trimmed_end(c), "that "@),
        !blank(c),
    ensures
        meaning(q + c, lanes) == ActionView::Note(trimmed(c)),
{
    let p = "remember "@;
    reveal_strlit("remember ");
    reveal_strlit("remember");
    assert(p.take(8) =~= "remember"@);
    assert("remember that "@ =~= p + "that "@) by {
        reveal_strlit("remember that ");
        reveal_strlit("that ");
    }
    assert("keep in mind that "@.len() > 0 && "keep in mind that "@[0] == 'k') by {
        reveal_strlit("keep in mind that ");
    }
    assert("note that "@.len() > 0 && "note that "@[0] == 'n') by {
        reveal_strlit("note that ");
    }
    lemma_other_letter(q, trimmed_end(c), p, "keep in mind that "@);
    lemma_other_letter(q, trimmed_end(c), p, "note that "@);
    lemma_shorter(q, trimmed_end(c), p, "that "@, "remember that "@);
    lemma_longer(q, trimmed_end(c), p);
    lemma_noted(q, c, p, 8, lanes);
}

proof fn lemma_note(q: Seq<char>, c: Seq<char>, lanes: Seq<LaneView>)
    requires
        said_as(q, "note "@),
        begins_with(q, c, "note "@),
        !has_prefix_ci(trimmed_end(c), "that "@),
        !blank(c),
    ensures
        meaning(q + c, lanes) == ActionView::Note(trimmed(c)),
{
    let p = "note "@;
    reveal_strlit("note ");
    reveal_strlit("note");
    assert(p.take(4) =~= "note"@);
    assert("note that "@ =~= p + "that "@) by {
        reveal_strlit("note that ");
        reveal_strlit("that ");
    }
    assert("keep in mind that "@.len() > 0 && "keep in mind that "@[0] == 'k') by {
        reveal_strlit("keep in mind that ");
    }
    assert("remember that "@.len() > 0 && "remember that "@[0] == 'r') by {
        reveal_strlit("remember that ");
    }
    assert("remember "@.len() > 0 && "remember "@[0] == 'r') by {
        reveal_strlit("remember ");
    }
    lemma_other_letter(q, trimmed_end(c), p, "keep in mind that "@);
    lemma_other_letter(q, trimmed_end(c), p, "remember that "@);
    lemma_other_letter(q, trimmed_end(c), p, "remember "@);
    lemma_shorter(q, trimmed_end(c), p, "that "@, "note that "@);
    lemma_longer(q, trimmed_end(c), p);
    lemma_noted(q, c, p, 4, lanes);
}

proof fn lemma_keep(q: Seq<char>, c: Seq<char>, lanes: Seq<LaneView>)
    requires
        said_as(q, "keep "@),
        begins_with(q, c, "keep "@),
        !has_prefix_ci(trimmed_end(c), "in mind that "@),
        !blank(c),
    ensures
        meaning(q + c, lanes) == ActionView::Note(trimmed(c)),
{
    let p = "keep "@;
    reveal_strlit("keep ");
    reveal_strlit("keep");
    assert(p.take(4) =~= "keep"@);
    assert("keep in mind that "@ =~= p + "in mind that "@) by {
        reveal_strlit("keep in mind that ");
        reveal_strlit("in mind that ");
    }
    assert("remember that "@.len() > 0 && "remember that "@[0] == 'r') by {
        reveal_strlit("remember that ");
    }
    assert("remember "@.len() > 0 && "remember "@[0] == 'r') by {
        reveal_strlit("remember ");
    }
    assert("note that "@.len() > 0 && "note that "@[0] == 'n') by {
        reveal_strlit("note that ");
    }
    assert("note "@.len() > 0 && "note "@[0] == 'n') by {
        reveal_strlit("note ");
    }
    lemma_other_letter(q, trimmed_end(c), p, "remember that "@);
    lemma_other_letter(q, trimmed_end(c), p, "remember "@);
    lemma_other_letter(q, trimmed_end(c), p, "note that "@);
    lemma_other_letter(q, trimmed_end(c), p, "note "@);
    lemma_shorter(q, trimmed_end(c), p, "in mind that "@, "keep in mind that "@);
    lemma_longer(q, trimmed_end(c), p);
    lemma_noted(q, c, p, 4, lanes);
}

proof fn lemma_longer(q: Seq<char>, e: Seq<char>, p: Seq<char>)
    ensures
        said_as(q, p) ==> has_prefix_ci(q + e, p),
{
    if said_as(q, p) {
        assert forall|i: int| 0 <= i < p.len() implies ascii_lower(#[trigger] (q + e)[i]) == p[i] by {
            assert((q + e)[i] == q[i]);
        }
    }
}

proof fn lemma_shorter(q: Seq<char>, e: Seq<char>, p: Seq<char>, more: Seq<char>, longer: Seq<char>)
    requires
        said_as(q, p),
        longer =~= p + more,
        !has_prefix_ci(e, more),
    ensures
        !has_prefix_ci(q + e, longer),
{
    if has_prefix_ci(q + e, longer) {
        assert forall|i: int| 0 <= i < more.len() implies ascii_lower(#[trigger] e[i]) == more[i] by {
            assert((q + e)[p.len() + i] == e[i]);
            assert(longer[p.len() + i] == more[i]);
        }
    }
}

// ---- commands -------------------------------------------------------------------

/// Whether an utterance is these plain words.
pub open spec fn says(raw: Seq<char>, words: Seq<Seq<char>>) -> bool {
    &&& plain_words(raw)
    &&& raw.len() > 0
    &&& pieces(raw, ' ') == words
}

/// Whether a word is a verb of movement.
pub open spec fn moves(word: Seq<char>) -> bool {
    word == "go"@ || word == "switch"@ || word == "work"@ || word == "move"@ || word == "jump"@
}

/// Whether a word makes something new.
pub open spec fn makes(word: Seq<char>) -> bool {
    word == "new"@ || word == "start"@ || word == "create"@
}

/// Whether a word means a lane in general.
pub open spec fn means_any_lane(word: Seq<char>) -> bool {
    word == "conversation"@ || word == "lane"@ || word == "chat"@
}

/// Whether a word leads to a name.
pub open spec fn leads_to_name(word: Seq<char>) -> bool {
    word == "for"@ || word == "about"@ || word == "called"@ || word == "named"@ || word == "to"@
}

/// Whether a word leads to what a briefing is about.
pub open spec fn leads_to_topic(word: Seq<char>) -> bool {
    word == "on"@ || word == "about"@ || word == "for"@
}

/// Plain words are their own normal form, in every step of it.
proof fn lemma_plain(raw: Seq<char>)
    requires
        plain_words(raw),
    ensures
        normalized(raw) == raw,
        trimmed(raw) == raw,
        lowercased(raw) == raw,
{
    lemma_plain_words_are_lower(raw);
    law_plain_words_are_stable(raw);
    if raw.len() > 0 {
        assert(plain_char(raw[0]));
        assert(plain_char(raw[raw.len() - 1]));
        lemma_trimmed_start_at(raw, 0);
        assert(raw.skip(0) =~= raw);
        lemma_trimmed_end_at(raw, raw.len() as int);
        assert(raw.take(raw.len() as int) =~= raw);
    } else {
        assert(trimmed(raw) =~= raw);
    }
}

/// An utterance begins with its first word.
proof fn lemma_begins(raw: Seq<char>, words: Seq<Seq<char>>, i: int)
    requires
        says(raw, words),
        0 <= i < words[0].len(),
    ensures
        words.len() > 0,
        i < raw.len(),
        raw[i] == words[0][i],
{
    lemma_first_word(raw);
    assert(words[0][i] == raw.take(words[0].len() as int)[i]);
}

proof fn lemma_not_listed(raw: Seq<char>, n: int)
    requires
        0 <= n <= 1,
        n < raw.len(),
        n == 0 ==> raw[0] != 'l' && raw[0] != 's' && raw[0] != 'w',
        n == 1 ==> raw[0] != 'l' && raw[1] != 'h',
    ensures
        !is_list(raw),
{
    reveal_strlit("list");
    reveal_strlit("show");
    reveal_strlit("what are the");
    reveal_strlit("what conversation");
    reveal_strlit("which conversation");
    let a = "list"@;
    let b = "show"@;
    let c = "what are the"@;
    let d = "what conversation"@;
    let e = "which conversation"@;
    assert(has_prefix(raw, a) ==> raw.take(a.len() as int)[0] == 'l');
    assert(has_prefix(raw, b) ==> raw.take(b.len() as int)[0] == 's' && raw.take(b.len() as int)[1]
        == 'h');
    assert(has_prefix(raw, c) ==> raw.take(c.len() as int)[0] == 'w' && raw.take(c.len() as int)[1]
        == 'h');
    assert(has_prefix(raw, d) ==> raw.take(d.len() as int)[0] == 'w' && raw.take(d.len() as int)[1]
        == 'h');
    assert(has_prefix(raw, e) ==> raw.take(e.len() as int)[0] == 'w' && raw.take(e.len() as int)[1]
        == 'h');
}

/// The words of the grammar are told apart.
proof fn lemma_words_differ()
    ensures
        forall|w: Seq<char>|
            {
                &&& #[trigger] moves(w) ==> !makes(w) && w != "fork"@ && w != "brief"@ && w
                    != "status"@ && w != "note"@ && w != "remember"@ && w != "keep"@
                &&& makes(w) ==> w != "fork"@ && w != "brief"@ && w != "status"@ && w != "note"@
                    && w != "remember"@ && w != "keep"@
            },
        "fork"@ != "note"@,
        "fork"@ != "remember"@,
        "fork"@ != "keep"@,
        "brief"@ != "note"@ && "brief"@ != "remember"@ && "brief"@ != "keep"@ && "brief"@ != "fork"@,
        "status"@ != "note"@ && "status"@ != "remember"@ && "status"@ != "keep"@ && "status"@
            != "fork"@,
        !makes("brief"@),
        !makes("status"@),
        !makes("fork"@),
        "go"@ != "switch"@ && "go"@ != "work"@ && "go"@ != "move"@ && "go"@ != "jump"@,
{
    reveal_strlit("go");
    reveal_strlit("switch");
    reveal_strlit("work");
    reveal_strlit("move");
    reveal_strlit("jump");
    reveal_strlit("new");
    reveal_strlit("start");
    reveal_strlit("create");
    reveal_strlit("fork");
    reveal_strlit("brief");
    reveal_strlit("status");
    reveal_strlit("note");
    reveal_strlit("remember");
    reveal_strlit("keep");
    assert("go"@.len() == 2 && "switch"@.len() == 6 && "work"@.len() == 4 && "move"@.len() == 4
        && "jump"@.len() == 4 && "new"@.len() == 3 && "start"@.len() == 5 && "create"@.len() == 6
        && "fork"@.len() == 4 && "brief"@.len() == 5 && "status"@.len() == 6 && "note"@.len() == 4
        && "remember"@.len() == 8 && "keep"@.len() == 4);
    assert("switch"@[1] == 'w' && "create"@[1] == 'r' && "status"@[1] == 't');
    assert("work"@[0] == 'w' && "move"@[0] == 'm' && "jump"@[0] == 'j' && "fork"@[0] == 'f'
        && "note"@[0] == 'n' && "keep"@[0] == 'k');
    assert("start"@[0] == 's' && "brief"@[0] == 'b');
}

/// The first two letters of the command words.
proof fn lemma_word_letters(w: Seq<char>)
    ensures
        moves(w) ==> w.len() >= 2 && w[0] != 'l' && w[1] != 'h',
        makes(w) ==> w.len() >= 2 && w[0] != 'l' && w[1] != 'h',
        w == "fork"@ || w == "brief"@ || w == "status"@ ==> w.len() >= 2 && w[0] != 'l' && w[1]
            != 'h',
{
    reveal_strlit("go");
    reveal_strlit("switch");
    reveal_strlit("work");
    reveal_strlit("move");
    reveal_strlit("jump");
    reveal_strlit("new");
    reveal_strlit("start");
    reveal_strlit("create");
    reveal_strlit("fork");
    reveal_strlit("brief");
    reveal_strlit("status");
}

/// An utterance that begins with a command word is no note and no list.
proof fn lemma_command(raw: Seq<char>, words: Seq<Seq<char>>)
    requires
        says(raw, words),
        moves(words[0]) || makes(words[0]) || words[0] == "fork"@ || words[0] == "brief"@
            || words[0] == "status"@,
    ensures
        normalized(raw) == raw,
        !is_note(raw),
        !is_list(raw),
        words.len() > 0,
{
    lemma_plain(raw);
    lemma_words_differ();
    lemma_word_letters(words[0]);
    lemma_first_word(raw);
    lemma_begins(raw, words, 0);
    lemma_begins(raw, words, 1);
    lemma_not_listed(raw, 1);
}

/// A verb of movement with a target that means a lane is a switch to that lane;
/// "go to" is a verb like "go".
pub proof fn law_verbs_of_movement_switch(
    raw: Seq<char>,
    verb: Seq<char>,
    target: Seq<char>,
    lanes: Seq<LaneView>,
)
    requires
        moves(verb),
        target.len() > 0,
        meant_lane(target, lanes) is Some,
        says(raw, seq![verb] + pieces(target, ' ')) && (verb == "go"@ ==> pieces(target, ' ')[0]
            != "to"@) || (verb == "go"@ && says(raw, seq![verb, "to"@] + pieces(target, ' '))),
    ensures
        meaning(raw, lanes) == ActionView::Switch(meant_lane(target, lanes)->0),
{
    let words = pieces(raw, ' ');
    let rest = pieces(target, ' ');
    lemma_words_differ();
    lemma_pieces_nonempty(target, ' ');
    lemma_joined_pieces(target);
    assert(words[0] == verb);
    lemma_command(raw, words);
    if says(raw, seq![verb] + rest) && (verb == "go"@ ==> rest[0] != "to"@) {
        assert(words.skip(1) =~= rest);
        assert(words[1] == rest[0]);
    } else {
        assert(words.skip(2) =~= rest);
        assert(words[1] == "to"@);
    }
    lemma_no_briefing(raw, words);
}

proof fn lemma_no_briefing(raw: Seq<char>, words: Seq<Seq<char>>)
    requires
        says(raw, words),
        moves(words[0]),
    ensures
        raw != "catch me up"@,
{
    lemma_first_word(raw);
    lemma_word_letters(words[0]);
    if raw == "catch me up"@ {
        reveal_strlit("catch me up");
        assert(words[0].len() >= 2);
        lemma_begins(raw, words, 0);
        lemma_begins(raw, words, 1);
        reveal_strlit("go");
        reveal_strlit("switch");
        reveal_strlit("work");
        reveal_strlit("move");
        reveal_strlit("jump");
        assert(raw[0] == 'c');
    }
}

/// "fork" alone is a fork without a name, and "fork into" with a name is a fork
/// under that name.
pub proof fn law_fork_phrases(raw: Seq<char>, name: Seq<char>, lanes: Seq<LaneView>)
    requires
        name.len() > 0,
    ensures
        says(raw, seq!["fork"@]) ==> meaning(raw, lanes) == ActionView::Fork(None),
        says(raw, seq!["fork"@, "into"@] + pieces(name, ' ')) ==> meaning(raw, lanes)
            == ActionView::Fork(Some(name)),
{
    let words = pieces(raw, ' ');
    lemma_joined_pieces(name);
    lemma_pieces_nonempty(name, ' ');
    if says(raw, seq!["fork"@]) {
        lemma_command(raw, words);
    }
    if says(raw, seq!["fork"@, "into"@] + pieces(name, ' ')) {
        assert(words[0] == "fork"@ && words[1] == "into"@);
        lemma_command(raw, words);
        assert(words.skip(2) =~= pieces(name, ' '));
    }
}

proof fn lemma_first_of(
    words: Seq<Seq<char>>,
    a: Seq<char>,
    b: Seq<char>,
    c: Seq<char>,
    i: int,
    p: int,
)
    requires
        0 <= i <= p <= words.len(),
        forall|k: int| i <= k < p ==> #[trigger] words[k] != a && words[k] != b && words[k] != c,
        p < words.len() ==> words[p] == a || words[p] == b || words[p] == c,
    ensures
        first_of(words, a, b, c, i) == p,
    decreases p - i,
{
    if i < p {
        assert(words[i] != a);
        lemma_first_of(words, a, b, c, i + 1, p);
    }
}

/// A word that makes something new, then, after any other words, a word for a
/// lane, and a name, with or without a word that leads to it, is a new lane of
/// that name.
pub proof fn law_new_phrases_name_the_lane(
    raw: Seq<char>,
    verb: Seq<char>,
    between: Seq<Seq<char>>,
    noun: Seq<char>,
    lead: Seq<char>,
    name: Seq<char>,
    lanes: Seq<LaneView>,
)
    requires
        makes(verb),
        means_any_lane(noun),
        name.len() > 0,
        forall|i: int| 0 <= i < between.len() ==> !means_any_lane(#[trigger] between[i]),
        says(raw, seq![verb] + between + seq![noun, lead] + pieces(name, ' ')) && leads_to_name(
            lead,
        ) || says(raw, seq![verb] + between + seq![noun] + pieces(name, ' ')) && !leads_to_name(
            pieces(name, ' ')[0],
        ),
    ensures
        meaning(raw, lanes) == ActionView::New(name),
{
    let words = pieces(raw, ' ');
    let rest = pieces(name, ' ');
    lemma_words_differ();
    lemma_nouns(verb);
    lemma_joined_pieces(name);
    lemma_pieces_nonempty(name, ' ');
    let k = 1 + between.len() as int;
    assert(words[0] == verb);
    lemma_command(raw, words);
    assert(words[k] == noun);
    assert forall|j: int| 0 <= j < k implies #[trigger] words[j] != "conversation"@ && words[j]
        != "lane"@ && words[j] != "chat"@ by {
        if j > 0 {
            assert(words[j] == between[j - 1]);
            assert(!means_any_lane(between[j - 1]));
        }
    }
    lemma_first_of(words, "conversation"@, "lane"@, "chat"@, 0, k);
    if says(raw, seq![verb] + between + seq![noun, lead] + rest) && leads_to_name(lead) {
        assert(words[k + 1] == lead);
        assert(words.skip(k + 2) =~= rest);
    } else {
        assert(words[k + 1] == rest[0]);
        assert(words.skip(k + 1) =~= rest);
    }
}

proof fn lemma_nouns(verb: Seq<char>)
    requires
        makes(verb),
    ensures
        !means_any_lane(verb),
{
    reveal_strlit("new");
    reveal_strlit("start");
    reveal_strlit("create");
    reveal_strlit("conversation");
    reveal_strlit("lane");
    reveal_strlit("chat");
    assert("new"@.len() == 3 && "start"@.len() == 5 && "create"@.len() == 6 && "conversation"@.len()
        == 12 && "lane"@.len() == 4 && "chat"@.len() == 4);
}

/// A briefing is asked about what follows the first word that leads to a topic,
/// and about no lane in particular where no such word is said.
pub proof fn law_briefing_phrases(
    raw: Seq<char>,
    verb: Seq<char>,
    between: Seq<Seq<char>>,
    lead: Seq<char>,
    topic: Seq<char>,
    lanes: Seq<LaneView>,
)
    requires
        verb == "brief"@ || verb == "status"@,
        leads_to_topic(lead),
        forall|i: int| 0 <= i < between.len() ==> !leads_to_topic(#[trigger] between[i]),
    ensures
        says(raw, seq![verb] + between + seq![lead] + pieces(topic, ' ')) ==> meaning(raw, lanes)
            == ActionView::Brief(meant_lane(topic, lanes)),
        says(raw, seq![verb] + between) ==> meaning(raw, lanes) == ActionView::Brief(None),
        meaning("catch me up"@, lanes) == ActionView::Brief(None),
{
    let words = pieces(raw, ' ');
    let rest = pieces(topic, ' ');
    lemma_words_differ();
    lemma_joined_pieces(topic);
    lemma_nothing_means_nothing(lanes);
    let k = 1 + between.len() as int;
    if says(raw, seq![verb] + between + seq![lead] + rest) {
        assert(words[0] == verb);
        assert(words[k] == lead);
        lemma_command(raw, words);
        lemma_topic_words(words, between, k);
        lemma_first_of(words, "on"@, "about"@, "for"@, 0, k);
        assert(words.skip(k + 1) =~= rest);
    }
    if says(raw, seq![verb] + between) {
        assert(words[0] == verb);
        lemma_command(raw, words);
        lemma_topic_words(words, between, k);
        lemma_first_of(words, "on"@, "about"@, "for"@, 0, k);
    }
    lemma_catch_me_up(lanes);
}

proof fn lemma_topic_words(words: Seq<Seq<char>>, between: Seq<Seq<char>>, k: int)
    requires
        words.len() >= k,
        k == 1 + between.len(),
        words[0] == "brief"@ || words[0] == "status"@,
        forall|i: int| 0 <= i < between.len() ==> words[1 + i] == #[trigger] between[i],
        forall|i: int| 0 <= i < between.len() ==> !leads_to_topic(#[trigger] between[i]),
    ensures
        forall|j: int|
            0 <= j < k ==> #[trigger] words[j] != "on"@ && words[j] != "about"@ && words[j]
                != "for"@,
{
    reveal_strlit("on");
    reveal_strlit("about");
    reveal_strlit("for");
    reveal_strlit("brief");
    reveal_strlit("status");
    assert("on"@.len() == 2 && "about"@.len() == 5 && "for"@.len() == 3 && "brief"@.len() == 5
        && "status"@.len() == 6 && "about"@[0] == 'a' && "brief"@[0] == 'b');
    assert forall|j: int| 0 <= j < k implies #[trigger] words[j] != "on"@ && words[j] != "about"@
        && words[j] != "for"@ by {
        if j > 0 {
            assert(words[1 + (j - 1)] == between[j - 1]);
            assert(!leads_to_topic(between[j - 1]));
        }
    }
}

proof fn lemma_nothing_means_nothing(lanes: Seq<LaneView>)
    ensures
        meant_lane(Seq::<char>::empty(), lanes) is None,
{
    lemma_plain(Seq::<char>::empty());
}

proof fn lemma_catch_me_up(lanes: Seq<LaneView>)
    ensures
        meaning("catch me up"@, lanes) == ActionView::Brief(None),
{
    let raw = "catch me up"@;
    reveal_strlit("catch me up");
    assert(plain_words(raw)) by {
        assert forall|i: int| 0 <= i < raw.len() implies plain_char(#[trigger] raw[i]) || raw[i]
            == ' ' by {
            if i == 0 || i == 1 || i == 2 || i == 3 || i == 4 || i == 5 || i == 6 || i == 7 || i == 8
                || i == 9 || i == 10 {
            }
        }
        assert forall|i: int| 0 <= i < raw.len() - 1 implies !(#[trigger] raw[i] == ' ' && raw[i
            + 1] == ' ') by {
            if i == 0 || i == 1 || i == 2 || i == 3 || i == 4 || i == 5 || i == 6 || i == 7 || i == 8
                || i == 9 {
            }
        }
    }
    lemma_plain(raw);
    lemma_not_listed(raw, 0);
    lemma_word_ends(raw, 5);
    let w = raw.take(5);
    let words = pieces(raw, ' ');
    assert(w[0] == 'c' && w[1] == 'a' && w.len() == 5);
    reveal_strlit("note");
    reveal_strlit("remember");
    reveal_strlit("keep");
    reveal_strlit("fork");
    reveal_strlit("new");
    reveal_strlit("start");
    reveal_strlit("create");
    assert("note"@.len() == 4 && "remember"@.len() == 8 && "keep"@.len() == 4 && "fork"@.len() == 4
        && "new"@.len() == 3 && "start"@.len() == 5 && "start"@[0] == 's' && "create"@.len() == 6);
    lemma_catch_words();
    lemma_first_of(words, "on"@, "about"@, "for"@, 0, 3);
    lemma_nothing_means_nothing(lanes);
}

proof fn lemma_catch_words()
    ensures
        ({
            let words = pieces("catch me up"@, ' ');
            &&& words.len() == 3
            &&& forall|j: int|
                0 <= j < 3 ==> #[trigger] words[j] != "on"@ && words[j] != "about"@ && words[j]
                    != "for"@
        }),
{
    let raw = "catch me up"@;
    reveal_strlit("catch me up");
    reveal_strlit("on");
    reveal_strlit("about");
    reveal_strlit("for");
    let a = seq!['c', 'a', 't', 'c', 'h'];
    let b = seq!['m', 'e'];
    let c = seq!['u', 'p'];
    lemma_pieces_word(a);
    lemma_pieces_more(a, b);
    lemma_pieces_more(a.push(' ') + b, c);
    lemma_pieces_word(b);
    lemma_pieces_word(c);
    assert(raw =~= (a.push(' ') + b).push(' ') + c);
    assert(pieces(raw, ' ') =~= seq![a, b, c]);
    assert("on"@[0] == 'o' && "about"@[0] == 'a' && "for"@.len() == 3);
}

/// The lists: what begins with a word of showing and speaks of conversations or
/// lanes is a wish for the list.
pub proof fn law_list_phrases(raw: Seq<char>, lanes: Seq<LaneView>)
    requires
        plain_words(raw),
        has_prefix(raw, "list"@) || has_prefix(raw, "show"@) || has_prefix(raw, "what are the"@)
            || has_prefix(raw, "what conversation"@) || has_prefix(raw, "which conversation"@),
        occurs(raw, "conversation"@) || occurs(raw, "lane"@),
    ensures
        meaning(raw, lanes) == ActionView::List,
{
    lemma_plain(raw);
    lemma_first_word(raw);
    reveal_strlit("list");
    reveal_strlit("show");
    reveal_strlit("what are the");
    reveal_strlit("what conversation");
    reveal_strlit("which conversation");
    reveal_strlit("note");
    reveal_strlit("remember");
    reveal_strlit("keep");
    let a = "list"@;
    let b = "show"@;
    let c = "what are the"@;
    let d = "what conversation"@;
    let e = "which conversation"@;
    assert(has_prefix(raw, a) ==> raw.take(a.len() as int)[0] == 'l');
    assert(has_prefix(raw, b) ==> raw.take(b.len() as int)[0] == 's');
    assert(has_prefix(raw, c) ==> raw.take(c.len() as int)[0] == 'w');
    assert(has_prefix(raw, d) ==> raw.take(d.len() as int)[0] == 'w');
    assert(has_prefix(raw, e) ==> raw.take(e.len() as int)[0] == 'w');
    let w = pieces(raw, ' ')[0];
    assert(raw.len() > 0);
    assert(raw[0] == 'l' || raw[0] == 's' || raw[0] == 'w');
    assert(w.len() > 0 ==> w[0] == raw.take(w.len() as int)[0]);
    assert("note"@[0] == 'n' && "remember"@[0] == 'r' && "keep"@[0] == 'k');
    assert("note"@.len() == 4 && "remember"@.len() == 8 && "keep"@.len() == 4);
}

/// What is no command and means a lane is a switch to it; what is no command and
/// means none is not understood.
pub proof fn law_lane_names_switch(raw: Seq<char>, words: Seq<Seq<char>>, lanes: Seq<LaneView>)
    requires
        says(raw, words),
        !moves(words[0]) && !makes(words[0]),
        words[0] != "fork"@ && words[0] != "brief"@ && words[0] != "status"@,
        words[0] != "note"@ && words[0] != "remember"@ && words[0] != "keep"@,
        !is_list(raw),
        raw != "catch me up"@,
    ensures
        meaning(raw, lanes) == (match meant_lane(raw, lanes) {
            Some(lane) => ActionView::Switch(lane),
            None => ActionView::Unknown,
        }),
{
    lemma_plain(raw);
    lemma_first_word(raw);
}

} // verus!
