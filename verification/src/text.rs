//! Text helpers: lengths in bytes and UTF-16 units, white space, search,
//! splitting and joining, decimal numbers, bounded prefixes.
use vstd::prelude::*;
use vstd::string::*;
use vstd::utf8::*;

verus! {

/// `String::push` appends one character.
pub assume_specification[ String::push ](s: &mut String, c: char)
    ensures
        final(s)@ == old(s)@.push(c),
;

/// What `str::to_lowercase` returns.
pub uninterp spec fn unicode_lowercased(s: Seq<char>) -> Seq<char>;

/// The lower case of an ASCII character.
pub open spec fn ascii_lower(c: char) -> char {
    if 'A' <= c && c <= 'Z' {
        ((c as u8) + 32) as u8 as char
    } else {
        c
    }
}

/// The upper case of an ASCII character.
pub open spec fn ascii_upper(c: char) -> char {
    if 'a' <= c && c <= 'z' {
        ((c as u8) - 32) as u8 as char
    } else {
        c
    }
}

/// A lower-case ASCII letter or a digit.
pub open spec fn plain_char(c: char) -> bool {
    ('a' <= c && c <= 'z') || ('0' <= c && c <= '9')
}

/// A text in lower case: on ASCII text character by character, else by the full
/// Unicode mapping.
pub open spec fn lowercased(s: Seq<char>) -> Seq<char> {
    if is_ascii_chars(s) {
        s.map_values(|c: char| ascii_lower(c))
    } else {
        unicode_lowercased(s)
    }
}

/// `str::to_lowercase`. The full Unicode mapping is named, not stated; on
/// ASCII text it is `ascii_lower` character by character, and on any text it
/// leaves no ASCII capital.
#[verifier::external_body]
fn lowercase_unicode(s: &str) -> (r: String)
    ensures
        r@ == unicode_lowercased(s@),
        is_ascii_chars(s@) ==> r@ == s@.map_values(|c: char| ascii_lower(c)),
        forall|i: int| 0 <= i < r@.len() ==> !('A' <= #[trigger] r@[i] && r@[i] <= 'Z'),
{
    s.to_lowercase()
}

/// A text of ASCII without a capital is in lower case already.
pub proof fn lemma_lower_stays(s: Seq<char>)
    requires
        is_ascii_chars(s),
        forall|i: int| 0 <= i < s.len() ==> !('A' <= #[trigger] s[i] && s[i] <= 'Z'),
    ensures
        lowercased(s) == s,
{
    assert(lowercased(s) =~= s);
}

/// A text in lower case. No ASCII capital is left in it.
pub(crate) fn lowercase(s: &str) -> (r: String)
    ensures
        r@ == lowercased(s@),
        forall|i: int| 0 <= i < r@.len() ==> !('A' <= #[trigger] r@[i] && r@[i] <= 'Z'),
{
    lowercase_unicode(s)
}

/// Number of bytes in the UTF-8 encoding.
pub open spec fn utf8_len(s: Seq<char>) -> nat {
    encode_utf8(s).len()
}

/// UTF-16 code units taken by one character.
pub open spec fn utf16_units(c: char) -> nat {
    if (c as u32) >= 0x10000 {
        2
    } else {
        1
    }
}

/// Number of UTF-16 code units in the text.
pub open spec fn utf16_len(s: Seq<char>) -> nat
    decreases s.len(),
{
    if s.len() == 0 {
        0
    } else {
        utf16_len(s.drop_last()) + utf16_units(s.last())
    }
}

/// Appending a character appends its encoding.
pub proof fn lemma_encode_push(s: Seq<char>, c: char)
    ensures
        encode_utf8(s.push(c)) == encode_utf8(s) + encode_scalar(c as u32),
    decreases s.len(),
{
    reveal_with_fuel(encode_utf8, 2);
    if s.len() == 0 {
        assert(s.push(c).drop_first() =~= Seq::<char>::empty());
        assert(s.push(c)[0] == c);
        assert(encode_utf8(s.push(c)) =~= encode_scalar(c as u32));
    } else {
        lemma_encode_push(s.drop_first(), c);
        assert(s.push(c).drop_first() =~= s.drop_first().push(c));
        assert(encode_utf8(s.push(c)) =~= encode_utf8(s) + encode_scalar(c as u32));
    }
}

/// The encoding of a concatenation is the concatenation of the encodings.
pub proof fn lemma_encode_add(a: Seq<char>, b: Seq<char>)
    ensures
        encode_utf8(a + b) == encode_utf8(a) + encode_utf8(b),
        utf8_len(a + b) == utf8_len(a) + utf8_len(b),
    decreases b.len(),
{
    if b.len() == 0 {
        assert(a + b =~= a);
        assert(encode_utf8(a + b) =~= encode_utf8(a) + encode_utf8(b));
    } else {
        lemma_encode_add(a, b.drop_last());
        lemma_encode_push(a + b.drop_last(), b.last());
        lemma_encode_push(b.drop_last(), b.last());
        assert((a + b.drop_last()).push(b.last()) =~= a + b);
        assert(b.drop_last().push(b.last()) =~= b);
        assert(encode_utf8(a + b) =~= encode_utf8(a) + encode_utf8(b));
    }
}

proof fn lemma_scalar_width(c: char)
    ensures
        1 <= encode_scalar(c as u32).len() <= 4,
        utf16_units(c) <= encode_scalar(c as u32).len(),
{
}

/// A text never has more characters or UTF-16 units than bytes.
pub proof fn lemma_len_bounds(s: Seq<char>)
    ensures
        s.len() <= utf8_len(s),
        utf16_len(s) <= utf8_len(s),
        s.len() <= utf16_len(s),
    decreases s.len(),
{
    if s.len() > 0 {
        lemma_len_bounds(s.drop_last());
        lemma_encode_push(s.drop_last(), s.last());
        lemma_scalar_width(s.last());
        assert(s.drop_last().push(s.last()) =~= s);
    }
}

/// A prefix of a text is no longer than the text in bytes.
pub proof fn lemma_take_len(s: Seq<char>, n: int)
    requires
        0 <= n <= s.len(),
    ensures
        utf8_len(s.take(n)) <= utf8_len(s),
        utf16_len(s.take(n)) <= utf8_len(s),
{
    lemma_encode_add(s.take(n), s.skip(n));
    assert(s.take(n) + s.skip(n) =~= s);
    lemma_len_bounds(s.take(n));
}

/// Bytes in the UTF-8 encoding of `s`.
pub fn byte_len(s: &str) -> (n: usize)
    ensures
        n == utf8_len(s@),
{
    s.as_bytes().len()
}

/// UTF-16 code units of `s`.
pub fn utf16_count(s: &str) -> (n: usize)
    ensures
        n == utf16_len(s@),
{
    let total: usize = byte_len(s);
    let mut n: usize = 0;
    for c in it: s.chars()
        invariant
            it.seq() == s@,
            total == utf8_len(s@),
            n == utf16_len(s@.take(it.index() as int)),
    {
        proof {
            let i = it.index() as int;
            assert(s@.take(i + 1).drop_last() =~= s@.take(i));
            assert(s@.take(i + 1).last() == s@[i]);
            lemma_take_len(s@, i + 1);
        }
        if (c as u32) >= 0x10000 {
            n = n + 2;
        } else {
            n = n + 1;
        }
    }
    assert(s@.take(s@.len() as int) =~= s@);
    n
}

/// The characters of `s`.
pub fn chars_of(s: &str) -> (r: Vec<char>)
    ensures
        r@ == s@,
{
    let mut out: Vec<char> = Vec::new();
    for c in it: s.chars()
        invariant
            it.seq() == s@,
            out@ == s@.take(it.index() as int),
    {
        out.push(c);
    }
    assert(s@.take(s@.len() as int) == s@);
    out
}

/// The text made of the characters `from..to` of `v`.
pub fn text_of(v: &Vec<char>, from: usize, to: usize) -> (r: String)
    requires
        from <= to <= v@.len(),
    ensures
        r@ == v@.subrange(from as int, to as int),
{
    let mut s = String::new();
    for i in from..to
        invariant
            to <= v@.len(),
            from <= i <= to,
            s@ == v@.subrange(from as int, i as int),
    {
        s.push(v[i]);
        assert(v@.subrange(from as int, i as int).push(v@[i as int]) =~= v@.subrange(
            from as int,
            i + 1,
        ));
    }
    s
}

/// Whether two texts are the same.
pub fn same_text(a: &str, b: &str) -> (r: bool)
    ensures
        r == (a@ == b@),
{
    let x = a.as_bytes();
    let y = b.as_bytes();
    if x.len() != y.len() {
        return false;
    }
    for i in 0..x.len()
        invariant
            x@ == encode_utf8(a@),
            y@ == encode_utf8(b@),
            x@.len() == y@.len(),
            forall|j: int| 0 <= j < i ==> x@[j] == y@[j],
    {
        if x[i] != y[i] {
            return false;
        }
    }
    proof {
        assert(x@ =~= y@);
        encode_utf8_decode_utf8(a@);
        encode_utf8_decode_utf8(b@);
    }
    true
}

/// The view of an optional text.
pub open spec fn opt_view(o: Option<String>) -> Option<Seq<char>> {
    match o {
        Some(s) => Some(s@),
        None => None,
    }
}

/// The view of an optional borrowed text.
pub open spec fn opt_str_view(o: Option<&str>) -> Option<Seq<char>> {
    match o {
        Some(s) => Some(s@),
        None => None,
    }
}

/// Whether two optional texts are the same.
pub fn same_opt_text(a: &Option<String>, b: Option<&str>) -> (r: bool)
    ensures
        r == (opt_view(*a) == opt_str_view(b)),
{
    match (a, b) {
        (Some(x), Some(y)) => same_text(x.as_str(), y),
        (None, None) => true,
        _ => false,
    }
}

/// An owned copy of an optional text.
pub fn own_opt(a: Option<&str>) -> (r: Option<String>)
    ensures
        opt_view(r) == opt_str_view(a),
{
    match a {
        Some(s) => Some(s.to_string()),
        None => None,
    }
}

/// A borrowed view of an optional text.
pub fn opt_ref(a: &Option<String>) -> (r: Option<&str>)
    ensures
        opt_str_view(r) == opt_view(*a),
{
    match a {
        Some(s) => Some(s.as_str()),
        None => None,
    }
}

/// Whether `s` begins with `p`.
pub open spec fn has_prefix(s: Seq<char>, p: Seq<char>) -> bool {
    p.len() <= s.len() && s.take(p.len() as int) == p
}

/// What follows `p` in `s`, when `s` begins with it.
pub fn strip_prefix<'a>(s: &'a str, p: &str) -> (r: Option<&'a str>)
    ensures
        match r {
            Some(t) => has_prefix(s@, p@) && t@ == s@.skip(p@.len() as int),
            None => !has_prefix(s@, p@),
        },
{
    let n: usize = p.unicode_len();
    let m: usize = s.unicode_len();
    if m < n {
        return None;
    }
    let head = s.substring_char(0, n);
    assert(head@ =~= s@.take(n as int));
    if same_text(head, p) {
        let t = s.substring_char(n, m);
        assert(t@ =~= s@.skip(n as int));
        Some(t)
    } else {
        None
    }
}

/// Whether `s` begins with `p`.
pub fn starts_with(s: &str, p: &str) -> (r: bool)
    ensures
        r == has_prefix(s@, p@),
{
    match strip_prefix(s, p) {
        Some(_) => true,
        None => false,
    }
}

/// Whether `p` stands in `s` at position `i`.
pub open spec fn occurs_at(s: Seq<char>, p: Seq<char>, i: int) -> bool {
    0 <= i && i + p.len() <= s.len() && s.subrange(i, i + p.len()) == p
}

/// Whether `p` stands somewhere in `s`.
pub open spec fn occurs(s: Seq<char>, p: Seq<char>) -> bool {
    exists|i: int| #[trigger] occurs_at(s, p, i)
}

/// Whether `p` stands somewhere in `s`.
pub fn contains(s: &str, p: &str) -> (r: bool)
    ensures
        r == occurs(s@, p@),
{
    let a = chars_of(s);
    let b = chars_of(p);
    if b.len() > a.len() {
        return false;
    }
    let total: usize = a.len();
    let last: usize = total - b.len();
    let mut i: usize = 0;
    while i <= last
        invariant
            a@ == s@,
            total == a@.len(),
            b@ == p@,
            last + b@.len() == a@.len(),
            i <= last + 1,
            forall|k: int| 0 <= k < i ==> !occurs_at(s@, p@, k),
        decreases last + 1 - i,
    {
        let mut j: usize = 0;
        while j < b.len() && a[i + j] == b[j]
            invariant
                a@ == s@,
                b@ == p@,
                total == a@.len(),
                i <= last,
                last + b@.len() == a@.len(),
                j <= b@.len(),
                forall|k: int| 0 <= k < j ==> a@[i + k] == b@[k],
            decreases b@.len() - j,
        {
            j = j + 1;
        }
        if j == b.len() {
            assert(s@.subrange(i as int, i + p@.len()) =~= p@);
            assert(occurs_at(s@, p@, i as int));
            return true;
        }
        assert(!occurs_at(s@, p@, i as int)) by {
            if occurs_at(s@, p@, i as int) {
                assert(s@.subrange(i as int, i + p@.len())[j as int] == s@[i + j]);
            }
        }
        i = i + 1;
    }
    false
}

/// The characters of the Unicode `White_Space` property.
pub open spec fn white_space(c: char) -> bool {
    let u = c as u32;
    ||| 0x9 <= u <= 0xd
    ||| u == 0x20
    ||| u == 0x85
    ||| u == 0xa0
    ||| u == 0x1680
    ||| 0x2000 <= u <= 0x200a
    ||| u == 0x2028
    ||| u == 0x2029
    ||| u == 0x202f
    ||| u == 0x205f
    ||| u == 0x3000
}

/// Whether `c` has the Unicode `White_Space` property.
pub fn is_white_space(c: char) -> (r: bool)
    ensures
        r == white_space(c),
{
    let u: u32 = c as u32;
    (0x9 <= u && u <= 0xd) || u == 0x20 || u == 0x85 || u == 0xa0 || u == 0x1680 || (0x2000 <= u
        && u <= 0x200a) || u == 0x2028 || u == 0x2029 || u == 0x202f || u == 0x205f || u == 0x3000
}

/// `s` without its leading white space.
pub open spec fn trimmed_start(s: Seq<char>) -> Seq<char>
    decreases s.len(),
{
    if s.len() > 0 && white_space(s[0]) {
        trimmed_start(s.drop_first())
    } else {
        s
    }
}

/// `s` without its trailing white space.
pub open spec fn trimmed_end(s: Seq<char>) -> Seq<char>
    decreases s.len(),
{
    if s.len() > 0 && white_space(s.last()) {
        trimmed_end(s.drop_last())
    } else {
        s
    }
}

/// `s` without the white space around it.
pub open spec fn trimmed(s: Seq<char>) -> Seq<char> {
    trimmed_end(trimmed_start(s))
}

/// Whether `s` holds nothing but white space.
pub open spec fn blank(s: Seq<char>) -> bool {
    forall|i: int| 0 <= i < s.len() ==> white_space(#[trigger] s[i])
}

/// Where the white space at the start ends.
pub proof fn lemma_trimmed_start_at(s: Seq<char>, n: int)
    requires
        0 <= n <= s.len(),
        forall|i: int| 0 <= i < n ==> white_space(#[trigger] s[i]),
        n == s.len() || !white_space(s[n]),
    ensures
        trimmed_start(s) == s.skip(n),
    decreases n,
{
    if n == 0 {
        assert(s.skip(0) =~= s);
    } else {
        assert(white_space(s[0]));
        lemma_trimmed_start_at(s.drop_first(), n - 1);
        assert(s.drop_first().skip(n - 1) =~= s.skip(n));
    }
}

/// Where the white space at the end begins.
pub proof fn lemma_trimmed_end_at(s: Seq<char>, n: int)
    requires
        0 <= n <= s.len(),
        forall|i: int| n <= i < s.len() ==> white_space(#[trigger] s[i]),
        n == 0 || !white_space(s[n - 1]),
    ensures
        trimmed_end(s) == s.take(n),
    decreases s.len(),
{
    if n == s.len() {
        assert(s.take(n) =~= s);
    } else {
        assert(white_space(s[s.len() - 1]));
        lemma_trimmed_end_at(s.drop_last(), n);
        assert(s.drop_last().take(n) =~= s.take(n));
    }
}

/// `s` without its leading white space.
pub fn trim_start<'a>(s: &'a str) -> (r: &'a str)
    ensures
        r@ == trimmed_start(s@),
{
    let v = chars_of(s);
    let mut n: usize = 0;
    while n < v.len() && is_white_space(v[n])
        invariant
            v@ == s@,
            n <= v@.len(),
            forall|i: int| 0 <= i < n ==> white_space(#[trigger] s@[i]),
        decreases v@.len() - n,
    {
        n = n + 1;
    }
    let r = s.substring_char(n, v.len());
    proof {
        lemma_trimmed_start_at(s@, n as int);
        assert(r@ =~= s@.skip(n as int));
    }
    r
}

/// `s` without its trailing white space.
pub fn trim_end<'a>(s: &'a str) -> (r: &'a str)
    ensures
        r@ == trimmed_end(s@),
{
    let v = chars_of(s);
    let mut n: usize = v.len();
    while n > 0 && is_white_space(v[n - 1])
        invariant
            v@ == s@,
            n <= v@.len(),
            forall|i: int| n <= i < s@.len() ==> white_space(#[trigger] s@[i]),
        decreases n,
    {
        n = n - 1;
    }
    let r = s.substring_char(0, n);
    proof {
        lemma_trimmed_end_at(s@, n as int);
        assert(r@ =~= s@.take(n as int));
    }
    r
}

/// `s` without the white space around it.
pub fn trim<'a>(s: &'a str) -> (r: &'a str)
    ensures
        r@ == trimmed(s@),
{
    trim_end(trim_start(s))
}

/// Whether `s` holds nothing but white space.
pub fn is_blank(s: &str) -> (r: bool)
    ensures
        r == blank(s@),
{
    for c in it: s.chars()
        invariant
            it.seq() == s@,
            forall|i: int| 0 <= i < it.index() ==> white_space(#[trigger] s@[i]),
    {
        if !is_white_space(c) {
            assert(!white_space(s@[it.index() as int]));
            return false;
        }
    }
    true
}

/// A text is blank exactly when trimming leaves nothing.
pub proof fn law_blank_trims_to_nothing(s: Seq<char>)
    ensures
        blank(s) == (trimmed(s).len() == 0),
    decreases s.len(),
{
    if s.len() > 0 && white_space(s[0]) {
        law_blank_trims_to_nothing(s.drop_first());
        assert(blank(s) == blank(s.drop_first())) by {
            if blank(s.drop_first()) {
                assert forall|i: int| 0 <= i < s.len() implies white_space(#[trigger] s[i]) by {
                    if i > 0 {
                        assert(s.drop_first()[i - 1] == s[i]);
                    }
                }
            }
            if blank(s) {
                assert forall|i: int| 0 <= i < s.drop_first().len() implies white_space(
                    #[trigger] s.drop_first()[i],
                ) by {
                    assert(s[i + 1] == s.drop_first()[i]);
                }
            }
        }
    } else if s.len() > 0 {
        lemma_trimmed_end_keeps_first(s);
    }
}

proof fn lemma_trimmed_end_keeps_first(s: Seq<char>)
    requires
        s.len() > 0,
        !white_space(s[0]),
    ensures
        trimmed_end(s).len() > 0,
        trimmed_end(s)[0] == s[0],
    decreases s.len(),
{
    if white_space(s.last()) {
        lemma_trimmed_end_keeps_first(s.drop_last());
    }
}

/// The digit character of `d`.
pub open spec fn digit_char(d: nat) -> char {
    (48 + d) as u8 as char
}

/// The decimal notation of `n`.
pub open spec fn decimal(n: nat) -> Seq<char>
    decreases n,
{
    if n < 10 {
        seq![digit_char(n)]
    } else {
        decimal(n / 10).push(digit_char(n % 10))
    }
}

/// The decimal notation of `n`.
pub fn decimal_text(n: u128) -> (r: String)
    ensures
        r@ == decimal(n as nat),
    decreases n,
{
    let mut s = if n < 10 {
        String::new()
    } else {
        decimal_text(n / 10)
    };
    let d: u8 = (n % 10) as u8;
    s.push((48 + d) as char);
    assert(n < 10 ==> s@ =~= seq![digit_char(n as nat)]);
    s
}

/// Whether `c` is one of `0` to `9`.
pub open spec fn is_digit(c: char) -> bool {
    '0' <= c && c <= '9'
}

/// Whether `s` is one digit or more and nothing else.
pub open spec fn all_digits(s: Seq<char>) -> bool {
    s.len() > 0 && forall|i: int| 0 <= i < s.len() ==> is_digit(#[trigger] s[i])
}

/// The number that a run of digits stands for.
pub open spec fn digits_value(s: Seq<char>) -> nat
    decreases s.len(),
{
    if s.len() == 0 {
        0
    } else {
        digits_value(s.drop_last()) * 10 + (s.last() as nat - 48) as nat
    }
}

/// The number that `s` stands for: digits, with at most one plus sign before
/// them.
pub open spec fn number(s: Seq<char>) -> Option<nat> {
    if all_digits(s) {
        Some(digits_value(s))
    } else if s.len() > 0 && s[0] == '+' && all_digits(s.skip(1)) {
        Some(digits_value(s.skip(1)))
    } else {
        None
    }
}

proof fn lemma_digits_value_grows(s: Seq<char>, n: int)
    requires
        0 <= n <= s.len(),
    ensures
        digits_value(s.take(n)) <= digits_value(s),
    decreases s.len() - n,
{
    if n == s.len() {
        assert(s.take(n) =~= s);
    } else {
        lemma_digits_value_grows(s, n + 1);
        assert(s.take(n + 1).drop_last() =~= s.take(n));
    }
}

/// The value of the digits `v[from..]`, or `None` where one is no digit or the
/// value exceeds `max`.
fn read_digits(v: &Vec<char>, from: usize, max: u128) -> (r: Option<u128>)
    requires
        from <= v@.len(),
    ensures
        match r {
            Some(n) => all_digits(v@.skip(from as int)) && n == digits_value(
                v@.skip(from as int),
            ) && n <= max,
            None => !all_digits(v@.skip(from as int)) || digits_value(v@.skip(from as int)) > max,
        },
{
    let ghost t = v@.skip(from as int);
    if from == v.len() {
        return None;
    }
    let mut n: u128 = 0;
    for i in from..v.len()
        invariant
            from <= i <= v@.len(),
            t == v@.skip(from as int),
            n <= max,
            n == digits_value(t.take(i - from)),
            forall|k: int| 0 <= k < i - from ==> is_digit(#[trigger] t[k]),
    {
        let c = v[i];
        assert(c == t[i - from]);
        if c < '0' || c > '9' {
            return None;
        }
        let d: u128 = (c as u32 - 48) as u128;
        proof {
            assert(t.take(i - from + 1).drop_last() =~= t.take(i - from));
            assert(t.take(i - from + 1).last() == c);
            lemma_digits_value_grows(t, i - from + 1);
        }
        if n > max / 10 {
            assert(n * 10 + d > max);
            return None;
        }
        if d > max - n * 10 {
            return None;
        }
        n = n * 10 + d;
    }
    assert(t.take(t.len() as int) =~= t);
    Some(n)
}

/// The number that `s` stands for, where it is at most `max`.
pub fn parse_number(s: &str, max: u128) -> (r: Option<u128>)
    ensures
        match r {
            Some(n) => number(s@) == Some(n as nat) && n <= max,
            None => number(s@) is None || number(s@)->0 > max,
        },
{
    let v = chars_of(s);
    if v.len() > 0 && v[0] == '+' {
        assert(!is_digit(v@[0]));
        assert(!all_digits(v@));
        read_digits(&v, 1, max)
    } else {
        assert(v@.skip(0) =~= v@);
        read_digits(&v, 0, max)
    }
}

/// Decimal notation is digits only and stands for the number it was made of.
pub proof fn law_decimal_reads_back(n: nat)
    ensures
        all_digits(decimal(n)),
        digits_value(decimal(n)) == n,
        number(decimal(n)) == Some(n),
    decreases n,
{
    let d = decimal(n);
    if n < 10 {
        assert(d.drop_last() =~= Seq::<char>::empty());
        assert(d.last() == digit_char(n));
        reveal_with_fuel(digits_value, 2);
    } else {
        law_decimal_reads_back(n / 10);
        assert(d.drop_last() =~= decimal(n / 10));
        assert forall|i: int| 0 <= i < d.len() implies is_digit(#[trigger] d[i]) by {
            if i < d.len() - 1 {
                assert(decimal(n / 10)[i] == d[i]);
            }
        }
    }
}

/// Ten to the power of `k`.
pub open spec fn ten_to(k: nat) -> nat
    decreases k,
{
    if k == 0 {
        1
    } else {
        10 * ten_to((k - 1) as nat)
    }
}

/// A number below a power of ten has few digits.
pub proof fn lemma_decimal_len(n: nat, k: nat)
    requires
        k >= 1,
        n < ten_to(k),
    ensures
        decimal(n).len() <= k,
    decreases k,
{
    if n >= 10 {
        if k == 1 {
            reveal_with_fuel(ten_to, 2);
        } else {
            lemma_decimal_len(n / 10, (k - 1) as nat);
        }
    }
}

/// The pieces of `s` between the separators.
pub open spec fn pieces(s: Seq<char>, sep: char) -> Seq<Seq<char>>
    decreases s.len(),
{
    if s.len() == 0 {
        seq![Seq::<char>::empty()]
    } else {
        let before = pieces(s.drop_last(), sep);
        if s.last() == sep {
            before.push(Seq::<char>::empty())
        } else {
            before.update(before.len() - 1, before.last().push(s.last()))
        }
    }
}

/// The views of a run of texts.
pub open spec fn views(v: Seq<String>) -> Seq<Seq<char>> {
    Seq::new(v.len(), |i: int| v[i]@)
}

pub proof fn lemma_pieces_nonempty(s: Seq<char>, sep: char)
    ensures
        pieces(s, sep).len() > 0,
    decreases s.len(),
{
    if s.len() > 0 {
        lemma_pieces_nonempty(s.drop_last(), sep);
    }
}

/// The pieces of `s` between the separators.
pub fn split(s: &str, sep: char) -> (r: Vec<String>)
    ensures
        views(r@) == pieces(s@, sep),
        r@.len() > 0,
{
    let mut out: Vec<String> = Vec::new();
    let mut current = String::new();
    assert(views(out@).push(current@) =~= pieces(s@.take(0), sep));
    for c in it: s.chars()
        invariant
            it.seq() == s@,
            views(out@).push(current@) == pieces(s@.take(it.index() as int), sep),
    {
        proof {
            let i = it.index() as int;
            assert(s@.take(i + 1).drop_last() =~= s@.take(i));
            assert(s@.take(i + 1).last() == c);
        }
        let ghost o = out@;
        let ghost w = current@;
        if c == sep {
            out.push(current);
            current = String::new();
            assert(views(out@).push(current@) =~= views(o).push(w).push(Seq::<char>::empty()));
        } else {
            current.push(c);
            assert(views(out@).push(current@) =~= views(o).push(w).update(
                o.len() as int,
                w.push(c),
            ));
        }
    }
    assert(s@.take(s@.len() as int) =~= s@);
    let ghost o = out@;
    let ghost w = current@;
    out.push(current);
    assert(views(out@) =~= views(o).push(w));
    out
}

/// The texts of `ws` with `sep` between them.
pub open spec fn joined(ws: Seq<Seq<char>>, sep: Seq<char>) -> Seq<char>
    decreases ws.len(),
{
    if ws.len() == 0 {
        Seq::<char>::empty()
    } else if ws.len() == 1 {
        ws[0]
    } else {
        joined(ws.drop_last(), sep) + sep + ws.last()
    }
}

/// The texts `ws[from..]` with `sep` between them.
pub fn join_from(ws: &Vec<String>, from: usize, sep: &str) -> (r: String)
    requires
        from <= ws@.len(),
    ensures
        r@ == joined(views(ws@).skip(from as int), sep@),
{
    let mut out = String::new();
    let ghost t = views(ws@).skip(from as int);
    for i in from..ws.len()
        invariant
            from <= i <= ws@.len(),
            t == views(ws@).skip(from as int),
            out@ == joined(t.take(i - from), sep@),
    {
        proof {
            assert(t.take(i - from + 1).drop_last() =~= t.take(i - from));
            assert(t.take(i - from + 1).last() == ws@[i as int]@);
        }
        if i > from {
            out.append(sep);
        }
        out.append(ws[i].as_str());
        assert(out@ =~= joined(t.take(i - from + 1), sep@));
    }
    assert(t.take(t.len() as int) =~= t);
    out
}

/// `s` without the occurrences of `c`.
pub open spec fn without(s: Seq<char>, c: char) -> Seq<char>
    decreases s.len(),
{
    if s.len() == 0 {
        s
    } else if s.last() == c {
        without(s.drop_last(), c)
    } else {
        without(s.drop_last(), c).push(s.last())
    }
}

/// `s` without the occurrences of `c`.
pub fn remove_char(s: &str, c: char) -> (r: String)
    ensures
        r@ == without(s@, c),
{
    let mut out = String::new();
    for x in it: s.chars()
        invariant
            it.seq() == s@,
            out@ == without(s@.take(it.index() as int), c),
    {
        proof {
            let i = it.index() as int;
            assert(s@.take(i + 1).drop_last() =~= s@.take(i));
            assert(s@.take(i + 1).last() == x);
        }
        if x != c {
            out.push(x);
        }
    }
    assert(s@.take(s@.len() as int) =~= s@);
    out
}

/// Whether `s` stays within both limits.
pub open spec fn fits(s: Seq<char>, max_bytes: nat, max_chars: nat) -> bool {
    utf8_len(s) <= max_bytes && s.len() <= max_chars
}

/// The longest prefix of `s` that stays within both limits.
pub open spec fn bounded(s: Seq<char>, max_bytes: nat, max_chars: nat) -> Seq<char>
    decreases s.len(),
{
    if s.len() == 0 || fits(s, max_bytes, max_chars) {
        s
    } else {
        bounded(s.drop_last(), max_bytes, max_chars)
    }
}

proof fn lemma_bounded_at(s: Seq<char>, max_bytes: nat, max_chars: nat, n: int)
    requires
        0 <= n <= s.len(),
        n > 0 ==> fits(s.take(n), max_bytes, max_chars),
        n < s.len() ==> !fits(s.take(n + 1), max_bytes, max_chars),
    ensures
        bounded(s, max_bytes, max_chars) == s.take(n),
    decreases s.len(),
{
    if n == s.len() {
        assert(s.take(n) =~= s);
    } else {
        let p = s.take(n + 1);
        lemma_encode_add(p, s.skip(n + 1));
        assert(p + s.skip(n + 1) =~= s);
        assert(!fits(s, max_bytes, max_chars));
        let d = s.drop_last();
        assert(d.take(n) =~= s.take(n));
        if n < d.len() {
            assert(d.take(n + 1) =~= s.take(n + 1));
        }
        lemma_bounded_at(d, max_bytes, max_chars, n);
    }
}

/// The result of `bounded` is a prefix, it is within the limits, and a longer
/// prefix is not.
pub proof fn law_bounded_is_the_longest_prefix(s: Seq<char>, max_bytes: nat, max_chars: nat, m: int)
    requires
        bounded(s, max_bytes, max_chars).len() < m <= s.len(),
    ensures
        bounded(s, max_bytes, max_chars) == s.take(bounded(s, max_bytes, max_chars).len() as int),
        fits(bounded(s, max_bytes, max_chars), max_bytes, max_chars),
        !fits(s.take(m), max_bytes, max_chars),
    decreases s.len(),
{
    let d = s.drop_last();
    if s.len() > 0 && !fits(s, max_bytes, max_chars) {
        if m == s.len() {
            assert(s.take(m) =~= s);
        }
        if bounded(d, max_bytes, max_chars).len() < d.len() {
            law_bounded_is_the_longest_prefix(
                d,
                max_bytes,
                max_chars,
                if m <= d.len() {
                    m
                } else {
                    d.len() as int
                },
            );
            let n = bounded(d, max_bytes, max_chars).len() as int;
            assert(d.take(n) =~= s.take(n));
            if m <= d.len() {
                assert(d.take(m) =~= s.take(m));
            }
        } else {
            lemma_bounded_prefix(d, max_bytes, max_chars);
            assert(d =~= s.take(d.len() as int));
            assert(d.take(d.len() as int) =~= d);
        }
    }
}

proof fn lemma_bounded_prefix(s: Seq<char>, max_bytes: nat, max_chars: nat)
    ensures
        bounded(s, max_bytes, max_chars).len() <= s.len(),
        bounded(s, max_bytes, max_chars) == s.take(bounded(s, max_bytes, max_chars).len() as int),
        fits(bounded(s, max_bytes, max_chars), max_bytes, max_chars),
    decreases s.len(),
{
    if s.len() == 0 || fits(s, max_bytes, max_chars) {
        assert(s.take(s.len() as int) =~= s);
    } else {
        lemma_bounded_prefix(s.drop_last(), max_bytes, max_chars);
        let n = bounded(s.drop_last(), max_bytes, max_chars).len() as int;
        assert(s.drop_last().take(n) =~= s.take(n));
    }
}

/// Number of characters in the longest prefix of `s` within both limits.
fn bounded_len(s: &str, max_bytes: usize, max_chars: usize) -> (n: usize)
    ensures
        n <= s@.len(),
        s@.take(n as int) == bounded(s@, max_bytes as nat, max_chars as nat),
{
    let v = chars_of(s);
    let mut bytes: usize = 0;
    let mut n: usize = 0;
    assert(s@.take(0) =~= Seq::<char>::empty());
    while n < v.len()
        invariant
            v@ == s@,
            n <= v@.len(),
            bytes == utf8_len(s@.take(n as int)),
            bytes <= max_bytes,
            n <= max_chars,
        decreases v@.len() - n,
    {
        let c: char = v[n];
        let u: u32 = c as u32;
        let w: usize = if u <= 0x7f {
            1
        } else if u <= 0x7ff {
            2
        } else if u <= 0xffff {
            3
        } else {
            4
        };
        proof {
            lemma_encode_push(s@.take(n as int), v@[n as int]);
            assert(s@.take(n as int).push(v@[n as int]) =~= s@.take(n + 1));
            assert(c == v@[n as int]);
            char_is_scalar(c);
            assert(encode_scalar(c as u32).len() == w);
        }
        if w > max_bytes - bytes || n >= max_chars {
            proof {
                lemma_bounded_at(s@, max_bytes as nat, max_chars as nat, n as int);
            }
            return n;
        }
        bytes = bytes + w;
        n = n + 1;
    }
    proof {
        lemma_bounded_at(s@, max_bytes as nat, max_chars as nat, n as int);
    }
    n
}

/// The longest prefix of `value` within both limits, cut between characters.
pub fn bounded_prefix<'a>(value: &'a str, max_bytes: usize, max_chars: usize) -> (r: &'a str)
    ensures
        r@ == bounded(value@, max_bytes as nat, max_chars as nat),
{
    let n: usize = bounded_len(value, max_bytes, max_chars);
    let r = value.substring_char(0, n);
    assert(r@ =~= value@.take(n as int));
    r
}

/// Longest excerpt of a frame that is shown in a diagnostic, in bytes.
pub const MAX_EXCERPT_BYTES: usize = 120;

/// A short excerpt of `s`, cut between characters.
pub fn truncate<'a>(s: &'a str) -> (r: &'a str)
    ensures
        r@ == bounded(s@, MAX_EXCERPT_BYTES as nat, s@.len()),
{
    let n: usize = s.unicode_len();
    bounded_prefix(s, MAX_EXCERPT_BYTES, n)
}

} // verus!
