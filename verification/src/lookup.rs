//! Finding the lane that a spoken name means: normal form, edit distance, and
//! the lookup itself.
use vstd::prelude::*;
use vstd::string::*;
use vstd::utf8::*;

use crate::lanes::{Lane, LaneRegistry, LaneView};
use crate::proto::is_ascii_alphanumeric;
use crate::text::{
    ascii_lower, ascii_upper, byte_len, chars_of, contains, lemma_lower_stays, lowercase,
    lowercased, occurs, plain_char, remove_char, same_text, trim, trimmed, trimmed_end,
    trimmed_start, utf8_len, white_space, without,
};

verus! {

// ---- normal form --------------------------------------------------------------

/// Lower-case ASCII letters and digits as they are, and one space for each run
/// of other characters after the first letter or digit.
pub open spec fn squeezed(s: Seq<char>) -> Seq<char>
    decreases s.len(),
{
    if s.len() == 0 {
        s
    } else {
        let before = squeezed(s.drop_last());
        if plain_char(s.last()) {
            before.push(s.last())
        } else if before.len() > 0 && before.last() != ' ' {
            before.push(' ')
        } else {
            before
        }
    }
}

/// Lower case, squeezed, without a space at the end.
pub open spec fn normalized(s: Seq<char>) -> Seq<char> {
    trimmed(squeezed(lowercased(s)))
}

/// Lower case, with one space for each run of anything but ASCII letters and
/// digits, and none at the ends.
pub fn normalize(s: &str) -> (r: String)
    ensures
        r@ == normalized(s@),
        plain_words(r@),
        normalized(r@) == r@,
{
    proof {
        law_normalized_is_plain_words(s@);
        law_normalizing_twice_is_normalizing_once(s@);
    }
    let lower = lowercase(s);
    let mut out = String::new();
    let mut last_space: bool = true;
    assert(squeezed(lower@.take(0)) =~= Seq::<char>::empty());
    for c in it: lower.as_str().chars()
        invariant
            it.seq() == lower@,
            forall|i: int|
                0 <= i < lower@.len() ==> !('A' <= #[trigger] lower@[i] && lower@[i] <= 'Z'),
            out@ == squeezed(lower@.take(it.index() as int)),
            last_space == (out@.len() == 0 || out@.last() == ' '),
    {
        proof {
            let i = it.index() as int;
            assert(lower@.take(i + 1).drop_last() =~= lower@.take(i));
            assert(lower@.take(i + 1).last() == c);
            assert(lower@[i] == c);
        }
        if is_ascii_alphanumeric(c) {
            out.push(c);
            last_space = false;
        } else if !last_space {
            out.push(' ');
            last_space = true;
        }
    }
    assert(lower@.take(lower@.len() as int) =~= lower@);
    trim(out.as_str()).to_string()
}

/// A text of lower-case ASCII letters and digits with single spaces between
/// them.
pub open spec fn plain_words(s: Seq<char>) -> bool {
    &&& forall|i: int| 0 <= i < s.len() ==> plain_char(#[trigger] s[i]) || s[i] == ' '
    &&& s.len() > 0 ==> s[0] != ' ' && s.last() != ' '
    &&& forall|i: int| 0 <= i < s.len() - 1 ==> !(#[trigger] s[i] == ' ' && s[i + 1] == ' ')
}

proof fn lemma_squeezed_shape(s: Seq<char>)
    ensures
        ({
            let t = squeezed(s);
            &&& forall|i: int|
                0 <= i < t.len() ==> plain_char(#[trigger] t[i]) || t[i] == ' '
            &&& t.len() > 0 ==> t[0] != ' '
            &&& forall|i: int| 0 <= i < t.len() - 1 ==> !(#[trigger] t[i] == ' ' && t[i + 1] == ' ')
        }),
    decreases s.len(),
{
    if s.len() > 0 {
        lemma_squeezed_shape(s.drop_last());
    }
}

/// What normalizing leaves is plain words.
pub proof fn law_normalized_is_plain_words(s: Seq<char>)
    ensures
        plain_words(normalized(s)),
{
    let t = squeezed(lowercased(s));
    lemma_squeezed_shape(lowercased(s));
    lemma_plain_not_white();
    assert(trimmed_start(t) =~= t);
    if t.len() > 0 && t.last() == ' ' {
        let u = t.drop_last();
        assert(u.len() > 0 ==> u.last() != ' ');
        assert(trimmed_end(u) =~= u);
        assert(trimmed_end(t) =~= u);
    } else {
        assert(trimmed_end(t) =~= t);
    }
}

proof fn lemma_plain_not_white()
    ensures
        forall|c: char| plain_char(c) ==> !white_space(c),
        white_space(' '),
{
}

proof fn lemma_squeezed_plain(s: Seq<char>)
    requires
        forall|i: int| 0 <= i < s.len() ==> plain_char(#[trigger] s[i]) || s[i] == ' ',
        s.len() > 0 ==> s[0] != ' ',
        forall|i: int| 0 <= i < s.len() - 1 ==> !(#[trigger] s[i] == ' ' && s[i + 1] == ' '),
    ensures
        squeezed(s) == s,
    decreases s.len(),
{
    if s.len() > 0 {
        let d = s.drop_last();
        assert forall|i: int| 0 <= i < d.len() - 1 implies !(#[trigger] d[i] == ' ' && d[i + 1]
            == ' ') by {
            assert(s[i] == d[i]);
        }
        lemma_squeezed_plain(d);
        if s.last() == ' ' {
            assert(d.len() > 0);
            assert(s[d.len() - 1] == d.last());
        }
        assert(d.push(s.last()) =~= s);
    }
}

/// Plain words stay as they are when squeezed and trimmed again.
pub proof fn law_plain_words_are_stable(s: Seq<char>)
    requires
        plain_words(s),
    ensures
        trimmed(squeezed(s)) == s,
{
    lemma_squeezed_plain(s);
    lemma_plain_not_white();
}

/// Plain words are in lower case already.
pub proof fn lemma_plain_words_are_lower(s: Seq<char>)
    requires
        plain_words(s),
    ensures
        lowercased(s) == s,
{
    assert forall|i: int| 0 <= i < s.len() implies '\0' <= #[trigger] s[i] <= '\u{7f}' && !('A'
        <= s[i] && s[i] <= 'Z') by {
        assert(plain_char(s[i]) || s[i] == ' ');
    }
    lemma_lower_stays(s);
}

/// Normalizing a text twice is normalizing it once.
pub proof fn law_normalizing_twice_is_normalizing_once(s: Seq<char>)
    ensures
        normalized(normalized(s)) == normalized(s),
{
    let t = normalized(s);
    law_normalized_is_plain_words(s);
    lemma_plain_words_are_lower(t);
    law_plain_words_are_stable(t);
}

/// Upper case does not matter: an ASCII text in capitals is normalized to the
/// same words.
pub proof fn law_normalizing_ignores_case(s: Seq<char>)
    requires
        is_ascii_chars(s),
    ensures
        normalized(s.map_values(|c: char| ascii_upper(c))) == normalized(s),
{
    let t = s.map_values(|c: char| ascii_upper(c));
    assert forall|i: int| 0 <= i < t.len() implies '\0' <= #[trigger] t[i] <= '\u{7f}' by {
        assert('\0' <= s[i] <= '\u{7f}');
        assert(t[i] == ascii_upper(s[i]));
    }
    assert(is_ascii_chars(t));
    assert forall|i: int| 0 <= i < s.len() implies ascii_lower(#[trigger] t[i]) == ascii_lower(
        s[i],
    ) by {
        assert('\0' <= s[i] <= '\u{7f}');
    }
    assert(lowercased(t) =~= lowercased(s));
}

// ---- edit distance ------------------------------------------------------------

spec fn min(a: nat, b: nat) -> nat {
    if a <= b {
        a
    } else {
        b
    }
}

/// How far two texts are apart, from the distances of their beginnings: a last
/// character is deleted, inserted or substituted, or it is the same in both.
pub open spec fn edit_distance(a: Seq<char>, b: Seq<char>) -> nat
    decreases a.len() + b.len(),
{
    if a.len() == 0 {
        b.len()
    } else if b.len() == 0 {
        a.len()
    } else {
        let up = edit_distance(a.drop_last(), b) + 1;
        let left = edit_distance(a, b.drop_last()) + 1;
        let corner = edit_distance(a.drop_last(), b.drop_last()) + (if a.last() == b.last() {
            0nat
        } else {
            1
        });
        if up <= left && up <= corner {
            up
        } else if left <= corner {
            left
        } else {
            corner
        }
    }
}

/// The distance is at most the length of the longer text.
pub proof fn law_edit_distance_is_bounded(a: Seq<char>, b: Seq<char>)
    ensures
        edit_distance(a, b) <= a.len() || edit_distance(a, b) <= b.len(),
    decreases a.len() + b.len(),
{
    if a.len() > 0 && b.len() > 0 {
        law_edit_distance_is_bounded(a.drop_last(), b.drop_last());
    }
}

/// The distance is the same both ways.
pub proof fn law_edit_distance_is_symmetric(a: Seq<char>, b: Seq<char>)
    ensures
        edit_distance(a, b) == edit_distance(b, a),
    decreases a.len() + b.len(),
{
    if a.len() > 0 && b.len() > 0 {
        law_edit_distance_is_symmetric(a.drop_last(), b);
        law_edit_distance_is_symmetric(a, b.drop_last());
        law_edit_distance_is_symmetric(a.drop_last(), b.drop_last());
    }
}

/// The distance is zero exactly between equal texts.
pub proof fn law_edit_distance_zero_means_equal(a: Seq<char>, b: Seq<char>)
    ensures
        edit_distance(a, b) == 0 <==> a == b,
    decreases a.len() + b.len(),
{
    if a.len() == 0 {
        assert(b.len() == 0 ==> a =~= b);
    } else if b.len() > 0 {
        law_edit_distance_zero_means_equal(a.drop_last(), b.drop_last());
        if edit_distance(a, b) == 0 {
            assert(a.drop_last().push(a.last()) =~= a);
            assert(b.drop_last().push(b.last()) =~= b);
        }
        if a == b {
            assert(edit_distance(a.drop_last(), b.drop_last()) == 0);
        }
    }
}

// ---- the distance as a number of edits --------------------------------------------

/// Whether one edit at `p` turns a text into another: a character is inserted,
/// deleted or substituted there.
pub open spec fn edited_at(a: Seq<char>, b: Seq<char>, p: int) -> bool {
    ||| (0 <= p < b.len() && a == b.remove(p))
    ||| (0 <= p < a.len() && b == a.remove(p))
    ||| (0 <= p < a.len() && p < b.len() && b == a.update(p, b[p]))
}

/// Whether one edit turns a text into another.
pub open spec fn one_edit(a: Seq<char>, b: Seq<char>) -> bool {
    exists|p: int| edited_at(a, b, p)
}

/// Whether `n` edits, one after the other, turn a text into another.
pub open spec fn edits(a: Seq<char>, b: Seq<char>, n: nat) -> bool
    decreases n,
{
    if n == 0 {
        a == b
    } else {
        exists|m: Seq<char>| #[trigger] one_edit(a, m) && edits(m, b, (n - 1) as nat)
    }
}

/// One character more at the end moves the distance by one at most.
proof fn lemma_push_moves_one(a: Seq<char>, c: char, b: Seq<char>)
    ensures
        edit_distance(a.push(c), b) <= edit_distance(a, b) + 1,
        edit_distance(a, b) <= edit_distance(a.push(c), b) + 1,
    decreases b.len(),
{
    let x = a.push(c);
    assert(x.drop_last() =~= a);
    if b.len() > 0 {
        lemma_push_moves_one(a, c, b.drop_last());
        if a.len() > 0 {
            assert(edit_distance(a, b) <= edit_distance(a, b.drop_last()) + 1);
        } else {
            lemma_empty_distance(b);
            lemma_empty_distance(b.drop_last());
        }
    }
}

proof fn lemma_empty_distance(b: Seq<char>)
    ensures
        edit_distance(Seq::<char>::empty(), b) == b.len(),
        edit_distance(b, Seq::<char>::empty()) == b.len(),
{
}

/// Another character at the end moves the distance by one at most.
proof fn lemma_last_moves_one(a: Seq<char>, c: char, d: char, b: Seq<char>)
    ensures
        edit_distance(a.push(c), b) <= edit_distance(a.push(d), b) + 1,
    decreases b.len(),
{
    assert(a.push(c).drop_last() =~= a);
    assert(a.push(d).drop_last() =~= a);
    if b.len() > 0 {
        lemma_last_moves_one(a, c, d, b.drop_last());
    }
}

/// What holds at the end holds before a common rest.
proof fn lemma_rest_moves_one(x: Seq<char>, y: Seq<char>, rest: Seq<char>, b: Seq<char>)
    requires
        forall|c: Seq<char>| #[trigger]
            edit_distance(x, c) <= edit_distance(y, c) + 1 && edit_distance(y, c) <= edit_distance(
                x,
                c,
            ) + 1,
    ensures
        edit_distance(x + rest, b) <= edit_distance(y + rest, b) + 1,
        edit_distance(y + rest, b) <= edit_distance(x + rest, b) + 1,
    decreases rest.len() + b.len(),
{
    if rest.len() == 0 {
        assert(x + rest =~= x);
        assert(y + rest =~= y);
        assert(edit_distance(x, b) <= edit_distance(y, b) + 1);
    } else {
        let r = rest.drop_last();
        assert((x + rest).drop_last() =~= x + r);
        assert((y + rest).drop_last() =~= y + r);
        assert((x + rest).last() == (y + rest).last());
        if b.len() == 0 {
            lemma_empty_distance(x);
            lemma_empty_distance(y);
            assert(edit_distance(x, b) <= edit_distance(y, b) + 1);
        } else {
            lemma_rest_moves_one(x, y, r, b);
            lemma_rest_moves_one(x, y, rest, b.drop_last());
            lemma_rest_moves_one(x, y, r, b.drop_last());
        }
    }
}

/// An insertion moves the distance by one at most, either way.
proof fn lemma_insertion_moves_one(a: Seq<char>, longer: Seq<char>, p: int, b: Seq<char>)
    requires
        0 <= p < longer.len(),
        a == longer.remove(p),
    ensures
        edit_distance(a, b) <= edit_distance(longer, b) + 1,
        edit_distance(longer, b) <= edit_distance(a, b) + 1,
{
    let x = a.take(p);
    let c = longer[p];
    let rest = a.skip(p);
    assert(a =~= x + rest);
    assert(longer =~= x.push(c) + rest);
    assert forall|d: Seq<char>| #[trigger]
        edit_distance(x, d) <= edit_distance(x.push(c), d) + 1 && edit_distance(x.push(c), d)
            <= edit_distance(x, d) + 1 by {
        lemma_push_moves_one(x, c, d);
    }
    lemma_rest_moves_one(x, x.push(c), rest, b);
}

/// One edit moves the distance by one at most.
proof fn lemma_edit_moves_one(a: Seq<char>, m: Seq<char>, b: Seq<char>)
    requires
        one_edit(a, m),
    ensures
        edit_distance(a, b) <= edit_distance(m, b) + 1,
{
    let p = choose|p: int| edited_at(a, m, p);
    if 0 <= p < m.len() && a == m.remove(p) {
        lemma_insertion_moves_one(a, m, p, b);
    } else if 0 <= p < a.len() && m == a.remove(p) {
        lemma_insertion_moves_one(m, a, p, b);
    } else {
        let w = a.take(p);
        let rest = a.skip(p + 1);
        let x = w.push(a[p]);
        let y = w.push(m[p]);
        assert(a =~= x + rest);
        assert(m =~= y + rest);
        assert forall|d: Seq<char>| #[trigger]
            edit_distance(x, d) <= edit_distance(y, d) + 1 && edit_distance(y, d)
                <= edit_distance(x, d) + 1 by {
            lemma_last_moves_one(w, a[p], m[p], d);
            lemma_last_moves_one(w, m[p], a[p], d);
        }
        lemma_rest_moves_one(x, y, rest, b);
    }
}

proof fn lemma_no_fewer_edits(a: Seq<char>, b: Seq<char>, n: nat)
    requires
        edits(a, b, n),
    ensures
        edit_distance(a, b) <= n,
    decreases n,
{
    if n == 0 {
        law_edit_distance_zero_means_equal(a, b);
    } else {
        let m = choose|m: Seq<char>| #[trigger] one_edit(a, m) && edits(m, b, (n - 1) as nat);
        lemma_edit_moves_one(a, m, b);
        lemma_no_fewer_edits(m, b, (n - 1) as nat);
    }
}

/// One more edit after `n`.
proof fn lemma_edit_after(a: Seq<char>, m: Seq<char>, b: Seq<char>, n: nat)
    requires
        edits(a, m, n),
        one_edit(m, b),
    ensures
        edits(a, b, n + 1),
    decreases n,
{
    if n == 0 {
        assert(one_edit(a, b) && edits(b, b, 0));
    } else {
        let k = choose|k: Seq<char>| #[trigger] one_edit(a, k) && edits(k, m, (n - 1) as nat);
        lemma_edit_after(k, m, b, (n - 1) as nat);
        assert(one_edit(a, k) && edits(k, b, n));
    }
}

/// Edits may be made before a common last character.
proof fn lemma_edits_before_last(a: Seq<char>, b: Seq<char>, c: char, n: nat)
    requires
        edits(a, b, n),
    ensures
        edits(a.push(c), b.push(c), n),
    decreases n,
{
    if n > 0 {
        let m = choose|m: Seq<char>| #[trigger] one_edit(a, m) && edits(m, b, (n - 1) as nat);
        lemma_edits_before_last(m, b, c, (n - 1) as nat);
        let p = choose|p: int| edited_at(a, m, p);
        let x = a.push(c);
        let y = m.push(c);
        assert(edited_at(x, y, p)) by {
            if 0 <= p < m.len() && a == m.remove(p) {
                assert(x =~= y.remove(p));
            } else if 0 <= p < a.len() && m == a.remove(p) {
                assert(y =~= x.remove(p));
            } else {
                assert(y =~= x.update(p, y[p]));
            }
        }
        assert(one_edit(x, y) && edits(y, b.push(c), (n - 1) as nat));
    }
}

/// As many edits as the distance says are enough.
proof fn lemma_edits_suffice(a: Seq<char>, b: Seq<char>)
    ensures
        edits(a, b, edit_distance(a, b)),
    decreases a.len() + b.len(),
{
    if a.len() == 0 && b.len() == 0 {
        assert(a =~= b);
    } else if a.len() == 0 {
        let d = b.drop_last();
        lemma_edits_suffice(a, d);
        assert(d =~= b.remove(b.len() - 1));
        assert(edited_at(d, b, b.len() - 1));
        lemma_edit_after(a, d, b, edit_distance(a, d));
    } else if b.len() == 0 {
        let d = a.drop_last();
        lemma_edits_suffice(d, b);
        assert(d =~= a.remove(a.len() - 1));
        assert(edited_at(a, d, a.len() - 1));
        assert(one_edit(a, d) && edits(d, b, (edit_distance(a, b) - 1) as nat));
    } else {
        let x = a.drop_last();
        let y = b.drop_last();
        let n = edit_distance(a, b);
        if n == edit_distance(x, b) + 1 {
            lemma_edits_suffice(x, b);
            assert(x =~= a.remove(a.len() - 1));
            assert(edited_at(a, x, a.len() - 1));
            assert(one_edit(a, x) && edits(x, b, (n - 1) as nat));
        } else if n == edit_distance(a, y) + 1 {
            lemma_edits_suffice(a, y);
            assert(y =~= b.remove(b.len() - 1));
            assert(edited_at(y, b, b.len() - 1));
            lemma_edit_after(a, y, b, edit_distance(a, y));
        } else {
            lemma_edits_suffice(x, y);
            lemma_edits_before_last(x, y, b.last(), edit_distance(x, y));
            assert(y.push(b.last()) =~= b);
            let m = x.push(b.last());
            if a.last() == b.last() {
                assert(m =~= a);
            } else {
                assert(m =~= a.update(a.len() - 1, m[a.len() - 1]));
                assert(edited_at(a, m, a.len() - 1));
                assert(one_edit(a, m) && edits(m, b, (n - 1) as nat));
            }
        }
    }
}

/// The distance is the fewest single-character insertions, deletions and
/// substitutions, anywhere in the text, that turn one text into the other: so
/// many suffice, and no fewer do.
pub proof fn law_edit_distance_is_the_fewest_edits(a: Seq<char>, b: Seq<char>)
    ensures
        edits(a, b, edit_distance(a, b)),
        forall|n: nat| #[trigger] edits(a, b, n) ==> edit_distance(a, b) <= n,
{
    lemma_edits_suffice(a, b);
    assert forall|n: nat| #[trigger] edits(a, b, n) implies edit_distance(a, b) <= n by {
        lemma_no_fewer_edits(a, b, n);
    }
}

fn min_of(a: usize, b: usize) -> (r: usize)
    ensures
        r == min(a as nat, b as nat),
{
    if a <= b {
        a
    } else {
        b
    }
}

fn levenshtein(x: &str, y: &str) -> (r: usize)
    ensures
        r == edit_distance(x@, y@),
{
    let a = chars_of(x);
    let b = chars_of(y);
    let m: usize = a.len();
    let n: usize = b.len();
    let mut dp: Vec<usize> = Vec::new();
    dp.push(0);
    assert(dp@[0] == edit_distance(a@.take(0), b@.take(0)));
    for j in 0..n
        invariant
            n == b@.len(),
            dp@.len() == j + 1,
            forall|k: int|
                0 <= k <= j ==> #[trigger] dp@[k] == edit_distance(a@.take(0), b@.take(k)),
    {
        dp.push(j + 1);
        assert(edit_distance(a@.take(0), b@.take(j + 1)) == j + 1);
    }
    for i in 0..m
        invariant
            m == a@.len(),
            n == b@.len(),
            dp@.len() == n + 1,
            forall|k: int|
                0 <= k <= n ==> #[trigger] dp@[k] == edit_distance(a@.take(i as int), b@.take(k)),
    {
        let ghost row = a@.take(i as int);
        let ghost next = a@.take(i + 1);
        assert(next.drop_last() =~= row);
        assert(next.last() == a@[i as int]);
        let mut prev: usize = dp[0];
        dp.set(0, i + 1);
        assert(edit_distance(next, b@.take(0)) == i + 1);
        for j in 0..n
            invariant
                m == a@.len(),
                n == b@.len(),
                i < m,
                dp@.len() == n + 1,
                row == a@.take(i as int),
                next == a@.take(i + 1),
                next.drop_last() == row,
                next.last() == a@[i as int],
                prev == edit_distance(row, b@.take(j as int)),
                forall|k: int|
                    0 <= k <= j ==> #[trigger] dp@[k] == edit_distance(next, b@.take(k)),
                forall|k: int| j < k <= n ==> #[trigger] dp@[k] == edit_distance(row, b@.take(k)),
        {
            let up: usize = dp[j + 1];
            let left: usize = dp[j];
            let same: bool = a[i] == b[j];
            let ghost col = b@.take(j + 1);
            proof {
                assert(col.drop_last() =~= b@.take(j as int));
                assert(col.last() == b@[j as int]);
                law_edit_distance_is_bounded(next, col);
                assert(up == edit_distance(row, col));
                assert(left == edit_distance(next, b@.take(j as int)));
                assert(edit_distance(next, col) <= usize::MAX);
            }
            let corner: usize = if same {
                prev
            } else {
                prev.saturating_add(1)
            };
            let best: usize = min_of(
                min_of(up.saturating_add(1), left.saturating_add(1)),
                corner,
            );
            assert(best == edit_distance(next, col));
            dp.set(j + 1, best);
            prev = up;
        }
    }
    assert(a@.take(a@.len() as int) =~= a@);
    assert(b@.take(n as int) =~= b@);
    dp[n]
}

// ---- lane lookup ----------------------------------------------------------------

/// A text without its spaces.
pub open spec fn flat(s: Seq<char>) -> Seq<char> {
    without(s, ' ')
}

/// Whether the normalized text names the lane.
pub open spec fn names_lane(t: Seq<char>, lane: LaneView) -> bool {
    let n = normalized(lane.name);
    n == t || lane.id == t || flat(n) == flat(t)
}

/// Whether the normalized text holds the lane's name.
pub open spec fn mentions_lane(t: Seq<char>, lane: LaneView) -> bool {
    let n = normalized(lane.name);
    occurs(t, n) || occurs(flat(t), flat(n))
}

/// How far the normalized text is from the lane's name.
pub open spec fn lane_distance(t: Seq<char>, lane: LaneView) -> nat {
    let n = normalized(lane.name);
    let near = edit_distance(t, n);
    let near_flat = edit_distance(flat(t), flat(n));
    if near <= near_flat {
        near
    } else {
        near_flat
    }
}

/// How far a text may be from the lane's name and still mean it.
pub open spec fn lane_tolerance(lane: LaneView) -> nat {
    let third = utf8_len(normalized(lane.name)) / 3;
    if third < 2 {
        2
    } else {
        third
    }
}

/// First lane from `i` on that the text names, else the number of lanes.
pub open spec fn first_named(t: Seq<char>, lanes: Seq<LaneView>, i: int) -> int
    decreases lanes.len() - i,
{
    if i < 0 || i >= lanes.len() {
        lanes.len() as int
    } else if names_lane(t, lanes[i]) {
        i
    } else {
        first_named(t, lanes, i + 1)
    }
}

/// First lane from `i` on that the text mentions, else the number of lanes.
pub open spec fn first_mentioned(t: Seq<char>, lanes: Seq<LaneView>, i: int) -> int
    decreases lanes.len() - i,
{
    if i < 0 || i >= lanes.len() {
        lanes.len() as int
    } else if mentions_lane(t, lanes[i]) {
        i
    } else {
        first_mentioned(t, lanes, i + 1)
    }
}

/// The nearest of the first `n` lanes within tolerance, the earliest of equally
/// near ones.
pub open spec fn nearest(t: Seq<char>, lanes: Seq<LaneView>, n: int) -> Option<int>
    decreases n,
{
    if n <= 0 {
        None
    } else {
        let before = nearest(t, lanes, n - 1);
        let d = lane_distance(t, lanes[n - 1]);
        if d <= lane_tolerance(lanes[n - 1]) && (before is None || d < lane_distance(
            t,
            lanes[before->0],
        )) {
            Some(n - 1)
        } else {
            before
        }
    }
}

/// Index of the lane that a text means: the first it names, else the first it
/// mentions, else the nearest within tolerance.
pub open spec fn meant_index(text: Seq<char>, lanes: Seq<LaneView>) -> Option<int> {
    let t = normalized(text);
    if t.len() == 0 {
        None
    } else if first_named(t, lanes, 0) < lanes.len() {
        Some(first_named(t, lanes, 0))
    } else if first_mentioned(t, lanes, 0) < lanes.len() {
        Some(first_mentioned(t, lanes, 0))
    } else {
        nearest(t, lanes, lanes.len() as int)
    }
}

/// The lane that a text means.
pub open spec fn meant_lane(text: Seq<char>, lanes: Seq<LaneView>) -> Option<LaneView> {
    match meant_index(text, lanes) {
        Some(i) => Some(lanes[i]),
        None => None,
    }
}

proof fn lemma_nearest(t: Seq<char>, lanes: Seq<LaneView>, n: int)
    requires
        0 <= n <= lanes.len(),
    ensures
        match nearest(t, lanes, n) {
            Some(b) => {
                &&& 0 <= b < n
                &&& lane_distance(t, lanes[b]) <= lane_tolerance(lanes[b])
                &&& forall|k: int|
                    0 <= k < n && lane_distance(t, #[trigger] lanes[k]) <= lane_tolerance(lanes[k])
                        ==> lane_distance(t, lanes[b]) <= lane_distance(t, lanes[k])
                &&& forall|k: int|
                    0 <= k < b && lane_distance(t, #[trigger] lanes[k]) <= lane_tolerance(lanes[k])
                        ==> lane_distance(t, lanes[b]) < lane_distance(t, lanes[k])
            },
            None => forall|k: int|
                0 <= k < n ==> lane_distance(t, #[trigger] lanes[k]) > lane_tolerance(lanes[k]),
        },
    decreases n,
{
    if n > 0 {
        lemma_nearest(t, lanes, n - 1);
    }
}

proof fn lemma_firsts(t: Seq<char>, lanes: Seq<LaneView>, i: int)
    requires
        0 <= i <= lanes.len(),
    ensures
        i <= first_named(t, lanes, i) <= lanes.len(),
        i <= first_mentioned(t, lanes, i) <= lanes.len(),
        first_named(t, lanes, i) < lanes.len() ==> names_lane(t, lanes[first_named(t, lanes, i)]),
        first_mentioned(t, lanes, i) < lanes.len() ==> mentions_lane(
            t,
            lanes[first_mentioned(t, lanes, i)],
        ),
        forall|k: int| i <= k < first_named(t, lanes, i) ==> !names_lane(t, #[trigger] lanes[k]),
        forall|k: int|
            i <= k < first_mentioned(t, lanes, i) ==> !mentions_lane(t, #[trigger] lanes[k]),
    decreases lanes.len() - i,
{
    if i < lanes.len() {
        lemma_firsts(t, lanes, i + 1);
    }
}

/// A lane is meant only where there is evidence for it: it is in the registry,
/// and the text names it, mentions it, or is within its tolerance with no
/// other lane nearer.
pub proof fn law_lookup_requires_evidence(text: Seq<char>, lanes: Seq<LaneView>)
    ensures
        match meant_index(text, lanes) {
            Some(i) => {
                let t = normalized(text);
                &&& 0 <= i < lanes.len()
                &&& {
                    ||| names_lane(t, lanes[i])
                    ||| mentions_lane(t, lanes[i])
                    ||| (lane_distance(t, lanes[i]) <= lane_tolerance(lanes[i]) && forall|k: int|
                        0 <= k < lanes.len() && lane_distance(t, #[trigger] lanes[k])
                            <= lane_tolerance(lanes[k]) ==> lane_distance(t, lanes[i])
                            <= lane_distance(t, lanes[k]))
                }
            },
            None => normalized(text).len() == 0 || forall|k: int|
                0 <= k < lanes.len() ==> {
                    let t = normalized(text);
                    &&& !names_lane(t, #[trigger] lanes[k])
                    &&& !mentions_lane(t, lanes[k])
                    &&& lane_distance(t, lanes[k]) > lane_tolerance(lanes[k])
                },
        },
{
    let t = normalized(text);
    lemma_firsts(t, lanes, 0);
    lemma_nearest(t, lanes, lanes.len() as int);
}

/// A lane is found by its own name, in capitals or not: the text names the lane
/// that it means. Names without an ASCII letter or digit in them mean nothing.
pub proof fn law_lane_is_found_by_its_name(text: Seq<char>, lanes: Seq<LaneView>, i: int)
    requires
        0 <= i < lanes.len(),
        normalized(text) == normalized(lanes[i].name),
        normalized(text).len() > 0,
    ensures
        match meant_index(text, lanes) {
            Some(j) => 0 <= j <= i && names_lane(normalized(text), lanes[j]),
            None => false,
        },
{
    let t = normalized(text);
    lemma_firsts(t, lanes, 0);
    assert(names_lane(t, lanes[i]));
}

/// The lane that a text means: exact name, else a name inside the text, else
/// the nearest name within a bounded edit distance.
pub fn match_lane(text: &str, reg: &LaneRegistry) -> (r: Option<Lane>)
    ensures
        match r {
            Some(lane) => meant_lane(text@, reg@.lanes) == Some(lane@),
            None => meant_lane(text@, reg@.lanes) is None,
        },
{
    let t = normalize(text);
    let t_flat = remove_char(t.as_str(), ' ');
    if t.as_str().is_empty() {
        return None;
    }
    let ghost lanes = reg@.lanes;
    let mut i: usize = 0;
    while i < reg.lanes.len()
        invariant
            lanes == reg@.lanes,
            t@ == normalized(text@),
            t_flat@ == flat(t@),
            t@.len() > 0,
            i <= lanes.len(),
            first_named(t@, lanes, 0) == first_named(t@, lanes, i as int),
        decreases lanes.len() - i,
    {
        let l = &reg.lanes[i];
        assert(l@ == lanes[i as int]);
        let n = normalize(l.name.as_str());
        let n_flat = remove_char(n.as_str(), ' ');
        if same_text(n.as_str(), t.as_str()) || same_text(l.id.as_str(), t.as_str()) || same_text(
            n_flat.as_str(),
            t_flat.as_str(),
        ) {
            return Some(l.clone());
        }
        i = i + 1;
    }
    i = 0;
    while i < reg.lanes.len()
        invariant
            lanes == reg@.lanes,
            t@ == normalized(text@),
            t_flat@ == flat(t@),
            t@.len() > 0,
            i <= lanes.len(),
            first_named(t@, lanes, 0) == lanes.len(),
            first_mentioned(t@, lanes, 0) == first_mentioned(t@, lanes, i as int),
        decreases lanes.len() - i,
    {
        let l = &reg.lanes[i];
        assert(l@ == lanes[i as int]);
        let n = normalize(l.name.as_str());
        let n_flat = remove_char(n.as_str(), ' ');
        if contains(t.as_str(), n.as_str()) || contains(t_flat.as_str(), n_flat.as_str()) {
            return Some(l.clone());
        }
        i = i + 1;
    }
    let mut best: usize = reg.lanes.len();
    let mut best_dist: usize = usize::MAX;
    i = 0;
    while i < reg.lanes.len()
        invariant
            lanes == reg@.lanes,
            t@ == normalized(text@),
            t_flat@ == flat(t@),
            t@.len() > 0,
            i <= lanes.len(),
            first_named(t@, lanes, 0) == lanes.len(),
            first_mentioned(t@, lanes, 0) == lanes.len(),
            best == lanes.len() ==> nearest(t@, lanes, i as int) is None && best_dist == usize::MAX,
            best < lanes.len() ==> nearest(t@, lanes, i as int) == Some(best as int) && best_dist
                == lane_distance(t@, lanes[best as int]),
            best <= lanes.len(),
        decreases lanes.len() - i,
    {
        let l = &reg.lanes[i];
        assert(l@ == lanes[i as int]);
        let n = normalize(l.name.as_str());
        let n_flat = remove_char(n.as_str(), ' ');
        let third: usize = byte_len(n.as_str()) / 3;
        let tolerance: usize = if third < 2 {
            2
        } else {
            third
        };
        let d: usize = min_of(
            levenshtein(t.as_str(), n.as_str()),
            levenshtein(t_flat.as_str(), n_flat.as_str()),
        );
        assert(d == lane_distance(t@, lanes[i as int]));
        assert(tolerance == lane_tolerance(lanes[i as int]));
        if d < best_dist && d <= tolerance {
            best_dist = d;
            best = i;
        }
        i = i + 1;
    }
    if best < reg.lanes.len() {
        Some(reg.lanes[best].clone())
    } else {
        None
    }
}

/// A name that was heard with at most two slips still finds a lane, and so does
/// one with more, as long as they are at most a third of the name.
pub proof fn law_small_slips_are_forgiven(text: Seq<char>, lanes: Seq<LaneView>, i: int)
    requires
        0 <= i < lanes.len(),
        normalized(text).len() > 0,
        ({
            let slips = edit_distance(normalized(text), normalized(lanes[i].name));
            slips <= 2 || slips * 3 <= utf8_len(normalized(lanes[i].name))
        }),
    ensures
        meant_index(text, lanes) is Some,
{
    law_lookup_requires_evidence(text, lanes);
    let t = normalized(text);
    let n = normalized(lanes[i].name);
    assert(lane_distance(t, lanes[i]) <= edit_distance(t, n));
    if meant_index(text, lanes) is None {
        assert(!names_lane(t, lanes[i]));
        assert(lane_distance(t, lanes[i]) > lane_tolerance(lanes[i]));
    }
}

/// A text that names no lane, holds the name of none, and is far from every name,
/// with its spaces and without them, means none.
pub proof fn law_far_texts_mean_nothing(text: Seq<char>, lanes: Seq<LaneView>)
    requires
        forall|i: int|
            0 <= i < lanes.len() ==> {
                let t = normalized(text);
                let n = normalized((#[trigger] lanes[i]).name);
                let far = |d: nat| d > 2 && d * 3 > utf8_len(n);
                &&& lanes[i].id != t
                &&& !occurs(t, n)
                &&& !occurs(without(t, ' '), without(n, ' '))
                &&& far(edit_distance(t, n))
                &&& far(edit_distance(without(t, ' '), without(n, ' ')))
            },
    ensures
        meant_index(text, lanes) is None,
{
    law_lookup_requires_evidence(text, lanes);
    let t = normalized(text);
    if let Some(i) = meant_index(text, lanes) {
        let n = normalized(lanes[i].name);
        let far = |d: nat| d > 2 && d * 3 > utf8_len(n);
        assert(far(edit_distance(t, n)));
        assert(far(edit_distance(without(t, ' '), without(n, ' '))));
        law_edit_distance_zero_means_equal(t, n);
        law_edit_distance_zero_means_equal(without(t, ' '), without(n, ' '));
        assert(!names_lane(t, lanes[i]));
        assert(!mentions_lane(t, lanes[i]));
        let third = utf8_len(n) / 3;
        assert(lane_distance(t, lanes[i]) > 2);
        assert(lane_distance(t, lanes[i]) * 3 > utf8_len(n));
    }
}

/// Whether a text is a lane's name or identifier, spaces aside.
pub open spec fn is_called(t: Seq<char>, lane: LaneView) -> bool {
    let n = normalized(lane.name);
    t == n || t == lane.id || without(t, ' ') == without(n, ' ')
}

/// Whether a text holds a lane's name, spaces aside.
pub open spec fn is_spoken_of(t: Seq<char>, lane: LaneView) -> bool {
    let n = normalized(lane.name);
    occurs(t, n) || occurs(without(t, ' '), without(n, ' '))
}

/// The first lane that is called by the text is meant; where none is, the first
/// whose name the text holds; and where there is none of those either, the nearest
/// of those that are near enough, the first one of the nearest.
pub proof fn law_better_evidence_wins(text: Seq<char>, lanes: Seq<LaneView>, i: int)
    requires
        normalized(text).len() > 0,
        0 <= i < lanes.len(),
    ensures
        ({
            let t = normalized(text);
            let none_called = forall|k: int|
                0 <= k < lanes.len() ==> !is_called(t, #[trigger] lanes[k]);
            let none_spoken_of = forall|k: int|
                0 <= k < lanes.len() ==> !is_spoken_of(t, #[trigger] lanes[k]);
            &&& is_called(t, lanes[i]) && (forall|k: int|
                0 <= k < i ==> !is_called(t, #[trigger] lanes[k])) ==> meant_lane(text, lanes)
                == Some(lanes[i])
            &&& none_called && is_spoken_of(t, lanes[i]) && (forall|k: int|
                0 <= k < i ==> !is_spoken_of(t, #[trigger] lanes[k])) ==> meant_lane(text, lanes)
                == Some(lanes[i])
            &&& none_called && none_spoken_of && meant_index(text, lanes) is Some && (edit_distance(
                t,
                normalized(lanes[i].name),
            ) <= 2 || edit_distance(t, normalized(lanes[i].name)) * 3 <= utf8_len(
                normalized(lanes[i].name),
            )) ==> {
                let m = lanes[meant_index(text, lanes)->0];
                let n = normalized(m.name);
                let d = edit_distance(t, normalized(lanes[i].name));
                edit_distance(t, n) <= d || edit_distance(without(t, ' '), without(n, ' ')) <= d
            }
        }),
{
    let t = normalized(text);
    lemma_firsts(t, lanes, 0);
    lemma_nearest(t, lanes, lanes.len() as int);
    assert forall|k: int| 0 <= k < lanes.len() implies is_called(t, #[trigger] lanes[k])
        == names_lane(t, lanes[k]) && is_spoken_of(t, lanes[k]) == mentions_lane(t, lanes[k]) by {}
    let a = first_named(t, lanes, 0);
    let b = first_mentioned(t, lanes, 0);
    if a < lanes.len() {
        assert(is_called(t, lanes[a]));
    }
    if b < lanes.len() {
        assert(is_spoken_of(t, lanes[b]));
    }
    assert(lane_distance(t, lanes[i]) <= edit_distance(t, normalized(lanes[i].name)));
}

} // verus!
