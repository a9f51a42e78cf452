//! The lane registry: which conversations exist, which one is active, and what
//! may change them.
use vstd::prelude::*;
use vstd::string::*;

use crate::clock::{now_iso, stamp};
use crate::proto::{
    is_ascii_alphanumeric, is_valid_lane_id, lane_char, valid_lane_id, MAX_SAFE_SEQUENCE,
};
use crate::text::{
    all_digits, blank, byte_len, chars_of, decimal, decimal_text, digits_value, has_prefix,
    is_blank, is_digit, lemma_decimal_len, lemma_encode_add, lemma_lower_stays, lowercase,
    lowercased, parse_number, plain_char, same_text, strip_prefix, ten_to, text_of, utf16_count,
    utf16_len, utf8_len,
};

verus! {

/// Most lanes that a registry holds.
pub const MAX_LANE_COUNT: usize = 256;

/// What a caller is told when a new lane does not fit.
pub const LANE_CAPACITY_ERROR_MESSAGE: &'static str =
    "lane capacity reached; use an existing conversation";

/// Longest lane name in bytes.
pub const MAX_LANE_NAME_UTF8_BYTES: usize = 128;

/// Longest lane name in UTF-16 code units.
pub const MAX_LANE_NAME_UTF16_CODE_UNITS: usize = 128;

/// Longest lane name in characters.
pub const MAX_LANE_NAME_CODEPOINTS: usize = 128;

/// Longest timestamp in bytes.
pub const MAX_LANE_TIMESTAMP_UTF8_BYTES: usize = 64;

/// Longest timestamp in UTF-16 code units.
pub const MAX_LANE_TIMESTAMP_UTF16_CODE_UNITS: usize = 64;

/// Longest timestamp in characters.
pub const MAX_LANE_TIMESTAMP_CODEPOINTS: usize = 64;

/// Longest title shown beside a lane, in bytes.
pub const MAX_ENRICHED_LANE_TITLE_UTF8_BYTES: usize = 256;

/// Longest title shown beside a lane, in characters.
pub const MAX_ENRICHED_LANE_TITLE_CODEPOINTS: usize = 128;

/// Why a registry could not be saved. A failure after the new file took the
/// old one's place leaves open which of the two survives a crash.
#[derive(Debug)]
pub enum LaneRegistrySaveError {
    InvalidRegistry(String),
    Serialization(String),
    PreRename(String),
    AmbiguousPostRename(String),
}

impl LaneRegistrySaveError {
    /// Whether the save may have happened all the same.
    pub fn is_ambiguous(&self) -> (r: bool)
        ensures
            r == (self is AmbiguousPostRename),
    {
        match self {
            LaneRegistrySaveError::AmbiguousPostRename(_) => true,
            _ => false,
        }
    }

    /// The failure in words.
    pub open spec fn words(self) -> Seq<char> {
        match self {
            LaneRegistrySaveError::InvalidRegistry(e) => "invalid lane registry: "@ + e@,
            LaneRegistrySaveError::Serialization(e) => "cannot serialize lane registry: "@ + e@,
            LaneRegistrySaveError::PreRename(e) => "lane snapshot was not replaced: "@ + e@,
            LaneRegistrySaveError::AmbiguousPostRename(e) =>
                "lane snapshot may have been replaced before persistence failed: "@ + e@,
        }
    }

    /// The failure in words.
    pub fn message(&self) -> (r: String)
        ensures
            r@ == self.words(),
    {
        let mut s: String;
        match self {
            LaneRegistrySaveError::InvalidRegistry(e) => {
                s = "invalid lane registry: ".to_string();
                s.append(e.as_str());
            },
            LaneRegistrySaveError::Serialization(e) => {
                s = "cannot serialize lane registry: ".to_string();
                s.append(e.as_str());
            },
            LaneRegistrySaveError::PreRename(e) => {
                s = "lane snapshot was not replaced: ".to_string();
                s.append(e.as_str());
            },
            LaneRegistrySaveError::AmbiguousPostRename(e) => {
                s =
                "lane snapshot may have been replaced before persistence failed: ".to_string();
                s.append(e.as_str());
            },
        }
        s
    }
}

/// Why a requested lane name is refused.
#[derive(Debug, Clone, Copy, PartialEq, Eq, Structural)]
pub enum LaneCreateError {
    BlankName,
    InvalidGeneratedId,
    CapacityReached,
}

impl LaneCreateError {
    /// The refusal in words.
    pub open spec fn words(self) -> Seq<char> {
        match self {
            LaneCreateError::BlankName => "lane name must not be blank"@,
            LaneCreateError::InvalidGeneratedId =>
                "lane name is too long to produce a valid lane identifier"@,
            LaneCreateError::CapacityReached => LANE_CAPACITY_ERROR_MESSAGE@,
        }
    }

    /// The refusal in words.
    pub fn message(&self) -> (r: String)
        ensures
            r@ == self.words(),
    {
        match self {
            LaneCreateError::BlankName => "lane name must not be blank".to_string(),
            LaneCreateError::InvalidGeneratedId =>
                "lane name is too long to produce a valid lane identifier".to_string(),
            LaneCreateError::CapacityReached => LANE_CAPACITY_ERROR_MESSAGE.to_string(),
        }
    }
}

/// A conversation lane.
#[derive(Debug, PartialEq)]
pub struct Lane {
    pub id: String,
    pub name: String,
    pub created_at: String,
    pub last_active: String,
    pub interactions: Option<u64>,
}

/// A lane as a value.
pub struct LaneView {
    pub id: Seq<char>,
    pub name: Seq<char>,
    pub created_at: Seq<char>,
    pub last_active: Seq<char>,
    pub interactions: Option<u64>,
}

impl View for Lane {
    type V = LaneView;

    open spec fn view(&self) -> LaneView {
        LaneView {
            id: self.id@,
            name: self.name@,
            created_at: self.created_at@,
            last_active: self.last_active@,
            interactions: self.interactions,
        }
    }
}

impl Clone for Lane {
    fn clone(&self) -> (r: Self)
        ensures
            r@ == self@,
    {
        Lane {
            id: self.id.clone(),
            name: self.name.clone(),
            created_at: self.created_at.clone(),
            last_active: self.last_active.clone(),
            interactions: self.interactions,
        }
    }
}

/// Whether two lanes are the same in every field.
pub fn same_lane(a: &Lane, b: &Lane) -> (r: bool)
    ensures
        r == (a@ == b@),
{
    same_text(a.id.as_str(), b.id.as_str()) && same_text(a.name.as_str(), b.name.as_str())
        && same_text(a.created_at.as_str(), b.created_at.as_str()) && same_text(
        a.last_active.as_str(),
        b.last_active.as_str(),
    ) && a.interactions == b.interactions
}

/// The values of a run of lanes.
pub open spec fn lane_views(v: Seq<Lane>) -> Seq<LaneView> {
    Seq::new(v.len(), |i: int| v[i]@)
}

/// The lanes, the active one, and the one that was active before it.
#[derive(Debug, PartialEq)]
pub struct LaneRegistry {
    pub lanes: Vec<Lane>,
    pub active_id: String,
    pub previous_id: String,
}

/// A registry as a value.
pub struct RegistryView {
    pub lanes: Seq<LaneView>,
    pub active_id: Seq<char>,
    pub previous_id: Seq<char>,
}

impl View for LaneRegistry {
    type V = RegistryView;

    open spec fn view(&self) -> RegistryView {
        RegistryView {
            lanes: lane_views(self.lanes@),
            active_id: self.active_id@,
            previous_id: self.previous_id@,
        }
    }
}

impl Clone for LaneRegistry {
    fn clone(&self) -> (r: Self)
        ensures
            r@ == self@,
    {
        let lanes = self.lanes.clone();
        assert(lane_views(lanes@) =~= lane_views(self.lanes@));
        LaneRegistry {
            lanes,
            active_id: self.active_id.clone(),
            previous_id: self.previous_id.clone(),
        }
    }
}

/// Index of the first lane with this identifier, the number of lanes where
/// there is none.
pub open spec fn position(lanes: Seq<LaneView>, id: Seq<char>) -> int
    decreases lanes.len(),
{
    if lanes.len() == 0 || lanes[0].id == id {
        0
    } else {
        1 + position(lanes.drop_first(), id)
    }
}

/// Whether a lane has this identifier.
pub open spec fn has_lane(lanes: Seq<LaneView>, id: Seq<char>) -> bool {
    exists|i: int| 0 <= i < lanes.len() && (#[trigger] lanes[i]).id == id
}

proof fn lemma_position_at(lanes: Seq<LaneView>, id: Seq<char>, p: int)
    requires
        0 <= p <= lanes.len(),
        forall|k: int| 0 <= k < p ==> (#[trigger] lanes[k]).id != id,
        p < lanes.len() ==> lanes[p].id == id,
    ensures
        position(lanes, id) == p,
    decreases p,
{
    if p > 0 {
        assert(lanes[0].id != id);
        let d = lanes.drop_first();
        assert forall|k: int| 0 <= k < p - 1 implies (#[trigger] d[k]).id != id by {
            assert(d[k] == lanes[k + 1]);
        }
        lemma_position_at(d, id, p - 1);
    }
}

/// What the position of an identifier says.
pub proof fn lemma_position(lanes: Seq<LaneView>, id: Seq<char>)
    ensures
        0 <= position(lanes, id) <= lanes.len(),
        position(lanes, id) < lanes.len() ==> lanes[position(lanes, id)].id == id,
        has_lane(lanes, id) == (position(lanes, id) < lanes.len()),
        forall|k: int| 0 <= k < position(lanes, id) ==> (#[trigger] lanes[k]).id != id,
    decreases lanes.len(),
{
    if lanes.len() > 0 {
        if lanes[0].id == id {
            assert(has_lane(lanes, id));
        } else {
            let d = lanes.drop_first();
            lemma_position(d, id);
            let p = position(d, id);
            assert forall|k: int| 0 <= k < 1 + p implies (#[trigger] lanes[k]).id != id by {
                if k > 0 {
                    assert(d[k - 1] == lanes[k]);
                }
            }
            if p < d.len() {
                assert(lanes[1 + p] == d[p]);
            }
        }
    }
}

/// Index of the first of `lanes` with this identifier, their number where
/// there is none.
pub fn find_lane(lanes: &Vec<Lane>, id: &str) -> (p: usize)
    ensures
        p == position(lane_views(lanes@), id@),
        p <= lanes@.len(),
{
    let mut p: usize = 0;
    while p < lanes.len() && !same_text(lanes[p].id.as_str(), id)
        invariant
            p <= lanes@.len(),
            forall|k: int| 0 <= k < p ==> (#[trigger] lane_views(lanes@)[k]).id != id@,
        decreases lanes@.len() - p,
    {
        p = p + 1;
    }
    proof {
        lemma_position_at(lane_views(lanes@), id@, p as int);
    }
    p
}

// ---- names and timestamps -------------------------------------------------

/// Whether a text stays within three length limits.
pub open spec fn within_caps(s: Seq<char>, bytes: nat, units: nat, chars: nat) -> bool {
    utf8_len(s) <= bytes && utf16_len(s) <= units && s.len() <= chars
}

fn is_within_string_caps(
    value: &str,
    max_utf8_bytes: usize,
    max_utf16_code_units: usize,
    max_codepoints: usize,
) -> (r: bool)
    ensures
        r == within_caps(
            value@,
            max_utf8_bytes as nat,
            max_utf16_code_units as nat,
            max_codepoints as nat,
        ),
{
    byte_len(value) <= max_utf8_bytes && utf16_count(value) <= max_utf16_code_units
        && value.unicode_len() <= max_codepoints
}

/// A lane name that may be kept: not empty, and bounded in bytes, UTF-16 code
/// units and characters.
pub open spec fn valid_lane_name(s: Seq<char>) -> bool {
    s.len() > 0 && within_caps(
        s,
        MAX_LANE_NAME_UTF8_BYTES as nat,
        MAX_LANE_NAME_UTF16_CODE_UNITS as nat,
        MAX_LANE_NAME_CODEPOINTS as nat,
    )
}

/// Whether a lane name may be kept.
pub fn is_valid_persisted_lane_name(value: &str) -> (r: bool)
    ensures
        r == valid_lane_name(value@),
{
    !value.is_empty() && is_within_string_caps(
        value,
        MAX_LANE_NAME_UTF8_BYTES,
        MAX_LANE_NAME_UTF16_CODE_UNITS,
        MAX_LANE_NAME_CODEPOINTS,
    )
}

/// A leap year of the Gregorian calendar.
pub open spec fn leap_year(year: nat) -> bool {
    year % 4 == 0 && (year % 100 != 0 || year % 400 == 0)
}

/// Days of a month, numbered from one.
pub open spec fn days_in_month(year: nat, month: nat) -> nat {
    if month == 2 {
        if leap_year(year) {
            29
        } else {
            28
        }
    } else if month == 4 || month == 6 || month == 9 || month == 11 {
        30
    } else {
        31
    }
}

/// The digits `from..to` of a text.
pub open spec fn digits_at(s: Seq<char>, from: int, to: int) -> bool {
    all_digits(s.subrange(from, to))
}

/// The number in the digits `from..to` of a text.
pub open spec fn number_at(s: Seq<char>, from: int, to: int) -> nat {
    digits_value(s.subrange(from, to))
}

/// `YYYY-MM-DDTHH:MM:SS.mmmZ` with a real date and time, year one or later.
pub open spec fn iso_timestamp(s: Seq<char>) -> bool {
    &&& s.len() == 24
    &&& s[4] == '-' && s[7] == '-' && s[10] == 'T' && s[13] == ':' && s[16] == ':' && s[19] == '.'
        && s[23] == 'Z'
    &&& digits_at(s, 0, 4) && digits_at(s, 5, 7) && digits_at(s, 8, 10) && digits_at(s, 11, 13)
        && digits_at(s, 14, 16) && digits_at(s, 17, 19) && digits_at(s, 20, 23)
    &&& number_at(s, 0, 4) >= 1
    &&& 1 <= number_at(s, 5, 7) <= 12
    &&& 1 <= number_at(s, 8, 10) <= days_in_month(number_at(s, 0, 4), number_at(s, 5, 7))
    &&& number_at(s, 11, 13) <= 23
    &&& number_at(s, 14, 16) <= 59
    &&& number_at(s, 17, 19) <= 59
}

/// A timestamp that may be kept: tagged epoch milliseconds within the exact
/// integer range, in at most 16 digits, or an ISO timestamp.
pub open spec fn valid_timestamp(s: Seq<char>) -> bool {
    if has_prefix(s, "epoch-ms:"@) {
        let ms = s.skip("epoch-ms:"@.len() as int);
        ms.len() <= 16 && all_digits(ms) && digits_value(ms) <= MAX_SAFE_SEQUENCE
    } else {
        iso_timestamp(s)
    }
}

proof fn lemma_few_digits(s: Seq<char>)
    requires
        all_digits(s),
        s.len() <= 4,
    ensures
        digits_value(s) <= 9999,
        s.len() <= 3 ==> digits_value(s) <= 999,
        s.len() <= 2 ==> digits_value(s) <= 99,
        s.len() == 1 ==> digits_value(s) <= 9,
    decreases s.len(),
{
    let d = s.drop_last();
    assert(is_digit(s[s.len() - 1]));
    if d.len() > 0 {
        assert forall|i: int| 0 <= i < d.len() implies is_digit(#[trigger] d[i]) by {
            assert(d[i] == s[i]);
        }
        lemma_few_digits(d);
    } else {
        assert(digits_value(d) == 0);
    }
}

/// The number in the digits `start..start + length`, where they are digits.
fn parse_fixed_digits(v: &Vec<char>, start: usize, length: usize) -> (r: Option<u16>)
    requires
        1 <= length <= 4,
        start <= 100,
        start + length <= v@.len(),
    ensures
        match r {
            Some(n) => digits_at(v@, start as int, start + length) && n == number_at(
                v@,
                start as int,
                start + length,
            ),
            None => !digits_at(v@, start as int, start + length),
        },
{
    let ghost t = v@.subrange(start as int, start + length);
    let mut n: u16 = 0;
    for i in 0..length
        invariant
            1 <= length <= 4,
            start <= 100,
            start + length <= v@.len(),
            t == v@.subrange(start as int, start + length),
            n == digits_value(t.take(i as int)),
            forall|k: int| 0 <= k < i ==> is_digit(#[trigger] t[k]),
    {
        let c = v[start + i];
        assert(c == t[i as int]);
        if c < '0' || c > '9' {
            return None;
        }
        proof {
            let u = t.take(i + 1);
            assert(u.drop_last() =~= t.take(i as int));
            assert(u.last() == c);
            assert forall|k: int| 0 <= k < u.len() implies is_digit(#[trigger] u[k]) by {
                assert(u[k] == t[k]);
            }
            lemma_few_digits(u);
        }
        let d: u16 = (c as u32 - 48) as u16;
        n = n * 10 + d;
    }
    assert(t.take(t.len() as int) =~= t);
    Some(n)
}

fn is_leap_year(year: u16) -> (r: bool)
    ensures
        r == leap_year(year as nat),
{
    year % 4 == 0 && (year % 100 != 0 || year % 400 == 0)
}

fn is_iso_timestamp(v: &Vec<char>) -> (r: bool)
    ensures
        r == iso_timestamp(v@),
{
    if v.len() != 24 || v[4] != '-' || v[7] != '-' || v[10] != 'T' || v[13] != ':' || v[16] != ':'
        || v[19] != '.' || v[23] != 'Z' {
        return false;
    }
    let year: u16 = match parse_fixed_digits(v, 0, 4) {
        Some(n) => n,
        None => {
            return false;
        },
    };
    let month: u16 = match parse_fixed_digits(v, 5, 2) {
        Some(n) => n,
        None => {
            return false;
        },
    };
    let day: u16 = match parse_fixed_digits(v, 8, 2) {
        Some(n) => n,
        None => {
            return false;
        },
    };
    let hour: u16 = match parse_fixed_digits(v, 11, 2) {
        Some(n) => n,
        None => {
            return false;
        },
    };
    let minute: u16 = match parse_fixed_digits(v, 14, 2) {
        Some(n) => n,
        None => {
            return false;
        },
    };
    let second: u16 = match parse_fixed_digits(v, 17, 2) {
        Some(n) => n,
        None => {
            return false;
        },
    };
    match parse_fixed_digits(v, 20, 3) {
        Some(_) => {},
        None => {
            return false;
        },
    }
    if year == 0 || month < 1 || month > 12 || hour > 23 || minute > 59 || second > 59 {
        return false;
    }
    let days: u16 = if month == 2 {
        if is_leap_year(year) {
            29
        } else {
            28
        }
    } else if month == 4 || month == 6 || month == 9 || month == 11 {
        30
    } else {
        31
    };
    day >= 1 && day <= days
}

/// Whether a timestamp may be kept.
pub fn is_valid_lane_timestamp(value: &str) -> (r: bool)
    ensures
        r == valid_timestamp(value@),
{
    match strip_prefix(value, "epoch-ms:") {
        Some(ms) => {
            if ms.unicode_len() > 16 {
                return false;
            }
            let v = chars_of(ms);
            if v.len() == 0 || v[0] == '+' {
                assert(!is_digit('+'));
                assert(v@.len() > 0 ==> !is_digit(v@[0]));
                return false;
            }
            match parse_number(ms, MAX_SAFE_SEQUENCE as u128) {
                Some(_) => true,
                None => false,
            }
        },
        None => {
            let v = chars_of(value);
            is_iso_timestamp(&v)
        },
    }
}

/// A timestamp that may be kept is ASCII and well within the limits on stored
/// timestamps.
pub proof fn law_timestamps_are_within_caps(s: Seq<char>)
    requires
        valid_timestamp(s),
    ensures
        within_caps(
            s,
            MAX_LANE_TIMESTAMP_UTF8_BYTES as nat,
            MAX_LANE_TIMESTAMP_UTF16_CODE_UNITS as nat,
            MAX_LANE_TIMESTAMP_CODEPOINTS as nat,
        ),
{
    reveal_strlit("epoch-ms:");
    let p = "epoch-ms:"@;
    if has_prefix(s, p) {
        let ms = s.skip(p.len() as int);
        assert forall|i: int| 0 <= i < s.len() implies (#[trigger] s[i] as u32) < 0x80 by {
            if i < p.len() {
                assert(s.take(p.len() as int)[i] == s[i]);
            } else {
                assert(is_digit(ms[i - p.len()]));
            }
        }
    } else {
        assert forall|i: int| 0 <= i < s.len() implies (#[trigger] s[i] as u32) < 0x80 by {
            if 0 <= i < 4 {
                assert(is_digit(s.subrange(0, 4)[i]));
            } else if 5 <= i < 7 {
                assert(is_digit(s.subrange(5, 7)[i - 5]));
            } else if 8 <= i < 10 {
                assert(is_digit(s.subrange(8, 10)[i - 8]));
            } else if 11 <= i < 13 {
                assert(is_digit(s.subrange(11, 13)[i - 11]));
            } else if 14 <= i < 16 {
                assert(is_digit(s.subrange(14, 16)[i - 14]));
            } else if 17 <= i < 19 {
                assert(is_digit(s.subrange(17, 19)[i - 17]));
            } else if 20 <= i < 23 {
                assert(is_digit(s.subrange(20, 23)[i - 20]));
            }
        }
    }
    crate::proto::lemma_ascii_lengths(s);
}

/// The clock's own timestamps may be kept while the instant is in the exact
/// integer range.
pub proof fn law_stamps_are_valid(ms: nat)
    requires
        ms <= MAX_SAFE_SEQUENCE,
    ensures
        valid_timestamp(stamp(ms)),
{
    let p = "epoch-ms:"@;
    crate::text::law_decimal_reads_back(ms);
    assert(stamp(ms).take(p.len() as int) =~= p);
    assert(stamp(ms).skip(p.len() as int) =~= decimal(ms));
    reveal_with_fuel(ten_to, 17);
    lemma_decimal_len(ms, 16);
}

// ---- creating lanes ---------------------------------------------------------

/// What stands for a character in a lane name: itself where it is a lower-case
/// ASCII letter or a digit, a dash elsewhere.
pub open spec fn slug_char(c: char) -> char {
    if plain_char(c) {
        c
    } else {
        '-'
    }
}

/// A text with every character replaced by its `slug_char`.
pub open spec fn dashed(s: Seq<char>) -> Seq<char> {
    Seq::new(s.len(), |i: int| slug_char(s[i]))
}

/// A text without the dashes at its start.
pub open spec fn undashed_start(s: Seq<char>) -> Seq<char>
    decreases s.len(),
{
    if s.len() > 0 && s[0] == '-' {
        undashed_start(s.drop_first())
    } else {
        s
    }
}

/// A text without the dashes at its end.
pub open spec fn undashed_end(s: Seq<char>) -> Seq<char>
    decreases s.len(),
{
    if s.len() > 0 && s.last() == '-' {
        undashed_end(s.drop_last())
    } else {
        s
    }
}

/// The name that a requested lane gets: lower case, a dash for everything that
/// is no ASCII letter or digit, none at the ends.
pub open spec fn slug(name: Seq<char>) -> Seq<char> {
    undashed_end(undashed_start(dashed(lowercased(name))))
}

/// The identifier that a requested lane gets.
pub open spec fn slug_id(name: Seq<char>) -> Seq<char> {
    "telepathy:repo:"@ + slug(name)
}

proof fn lemma_undashed(s: Seq<char>, a: int, b: int)
    requires
        0 <= a <= b <= s.len(),
        forall|i: int| 0 <= i < a ==> #[trigger] s[i] == '-',
        forall|i: int| b <= i < s.len() ==> #[trigger] s[i] == '-',
        a < s.len() ==> s[a] != '-',
        a < b ==> s[b - 1] != '-',
        a < s.len() ==> a < b,
    ensures
        undashed_end(undashed_start(s)) == s.subrange(a, b),
    decreases s.len(),
{
    if s.len() == 0 {
        assert(s.subrange(a, b) =~= s);
    } else if a > 0 {
        assert(s[0] == '-');
        let d = s.drop_first();
        lemma_undashed(d, a - 1, b - 1);
        assert(d.subrange(a - 1, b - 1) =~= s.subrange(a, b));
    } else {
        lemma_undashed_end(s, b);
        assert(s.take(b) =~= s.subrange(a, b));
    }
}

proof fn lemma_undashed_end(s: Seq<char>, b: int)
    requires
        0 <= b <= s.len(),
        forall|i: int| b <= i < s.len() ==> #[trigger] s[i] == '-',
        b > 0 ==> s[b - 1] != '-',
    ensures
        undashed_end(s) == s.take(b),
    decreases s.len(),
{
    if b == s.len() {
        assert(s.take(b) =~= s);
    } else {
        assert(s[s.len() - 1] == '-');
        lemma_undashed_end(s.drop_last(), b);
        assert(s.drop_last().take(b) =~= s.take(b));
    }
}

fn slugify(name: &str) -> (r: String)
    ensures
        r@ == slug(name@),
{
    let lower = lowercase(name);
    let source = chars_of(lower.as_str());
    let mut v: Vec<char> = Vec::new();
    for i in 0..source.len()
        invariant
            source@ == lowercased(name@),
            forall|k: int|
                0 <= k < source@.len() ==> !('A' <= #[trigger] source@[k] && source@[k] <= 'Z'),
            v@ == dashed(source@).take(i as int),
    {
        let c = source[i];
        if is_ascii_alphanumeric(c) {
            v.push(c);
        } else {
            v.push('-');
        }
        assert(v@ =~= dashed(source@).take(i + 1));
    }
    assert(dashed(source@).take(source@.len() as int) =~= dashed(source@));
    let mut a: usize = 0;
    while a < v.len() && v[a] == '-'
        invariant
            a <= v@.len(),
            forall|i: int| 0 <= i < a ==> #[trigger] v@[i] == '-',
        decreases v@.len() - a,
    {
        a = a + 1;
    }
    let mut b: usize = v.len();
    while b > a && v[b - 1] == '-'
        invariant
            a <= b <= v@.len(),
            a < v@.len() ==> v@[a as int] != '-',
            a < v@.len() ==> a < b,
            forall|i: int| b <= i < v@.len() ==> #[trigger] v@[i] == '-',
        decreases b,
    {
        b = b - 1;
    }
    proof {
        lemma_undashed(v@, a as int, b as int);
    }
    text_of(&v, a, b)
}

/// Taking the dashes off the start leaves a text that does not begin with one.
proof fn lemma_undashed_start(s: Seq<char>)
    ensures
        ({
            let t = undashed_start(s);
            &&& t.len() > 0 ==> t[0] != '-'
            &&& forall|i: int| 0 <= i < t.len() ==> s.contains(#[trigger] t[i])
        }),
    decreases s.len(),
{
    if s.len() > 0 && s[0] == '-' {
        let d = s.drop_first();
        lemma_undashed_start(d);
        let t = undashed_start(s);
        assert forall|i: int| 0 <= i < t.len() implies s.contains(#[trigger] t[i]) by {
            let k = choose|k: int| 0 <= k < d.len() && d[k] == t[i];
            assert(s[k + 1] == t[i]);
        }
    }
}

/// Taking the dashes off the end leaves a prefix that does not end in one.
proof fn lemma_undashed_prefix(s: Seq<char>)
    ensures
        ({
            let t = undashed_end(s);
            &&& t.len() <= s.len()
            &&& t == s.take(t.len() as int)
            &&& t.len() > 0 ==> t.last() != '-'
        }),
    decreases s.len(),
{
    if s.len() > 0 && s.last() == '-' {
        let d = s.drop_last();
        lemma_undashed_prefix(d);
        let t = undashed_end(s);
        assert(s.take(t.len() as int) =~= d.take(t.len() as int));
    } else {
        assert(s.take(s.len() as int) =~= s);
    }
}

/// The name that a lane gets holds lower-case ASCII letters, digits and dashes
/// alone, with no dash at its ends, and asking for that name gives it again.
pub proof fn law_slug_is_stable(name: Seq<char>)
    ensures
        ({
            let s = slug(name);
            &&& forall|i: int| 0 <= i < s.len() ==> plain_char(#[trigger] s[i]) || s[i] == '-'
            &&& s.len() > 0 ==> s[0] != '-' && s.last() != '-'
            &&& slug(s) == s
        }),
{
    let d = dashed(lowercased(name));
    let u = undashed_start(d);
    let s = slug(name);
    lemma_undashed_start(d);
    lemma_undashed_prefix(u);
    assert forall|i: int| 0 <= i < s.len() implies plain_char(#[trigger] s[i]) || s[i] == '-' by {
        assert(s[i] == u[i]);
        assert(d.contains(u[i]));
    }
    if s.len() > 0 {
        assert(s[0] == u[0]);
    }
    assert forall|i: int| 0 <= i < s.len() implies '\0' <= #[trigger] s[i] <= '\u{7f}' && !('A'
        <= s[i] && s[i] <= 'Z') by {
        assert(plain_char(s[i]) || s[i] == '-');
    }
    lemma_lower_stays(s);
    assert(dashed(s) =~= s);
}

fn slug_id_text(slug: &str) -> (r: String)
    ensures
        r@ == "telepathy:repo:"@ + slug@,
{
    let mut s = "telepathy:repo:".to_string();
    s.append(slug);
    s
}

/// Why a lane cannot be created under this name in any registry.
pub open spec fn name_refusal(name: Seq<char>) -> Option<LaneCreateError> {
    if blank(name) {
        Some(LaneCreateError::BlankName)
    } else if slug(name).len() == 0 || !valid_lane_id(slug_id(name)) {
        Some(LaneCreateError::InvalidGeneratedId)
    } else {
        None
    }
}

/// Why a lane cannot be created under this name among these lanes. An existing
/// lane stays usable when the registry is full.
pub open spec fn create_refusal(lanes: Seq<LaneView>, name: Seq<char>) -> Option<LaneCreateError> {
    if name_refusal(name) is Some {
        name_refusal(name)
    } else if !has_lane(lanes, slug_id(name)) && lanes.len() >= MAX_LANE_COUNT {
        Some(LaneCreateError::CapacityReached)
    } else {
        None
    }
}

/// A lane made at `now` under this name.
pub open spec fn fresh_lane(name: Seq<char>, now: Seq<char>) -> LaneView {
    LaneView {
        id: slug_id(name),
        name: slug(name),
        created_at: now,
        last_active: now,
        interactions: None,
    }
}

/// The registry after a create that is not refused: as it was where the lane
/// exists, with a fresh lane at the end elsewhere.
pub open spec fn created(reg: RegistryView, name: Seq<char>, now: Seq<char>) -> RegistryView {
    if has_lane(reg.lanes, slug_id(name)) {
        reg
    } else {
        RegistryView { lanes: reg.lanes.push(fresh_lane(name, now)), ..reg }
    }
}

/// The lane that a create hands back.
pub open spec fn created_lane(reg: RegistryView, name: Seq<char>, now: Seq<char>) -> LaneView {
    if has_lane(reg.lanes, slug_id(name)) {
        reg.lanes[position(reg.lanes, slug_id(name))]
    } else {
        fresh_lane(name, now)
    }
}

/// The registry after activity on a lane at `now`.
pub open spec fn touched(reg: RegistryView, id: Seq<char>, now: Seq<char>) -> RegistryView {
    let p = position(reg.lanes, id);
    RegistryView {
        lanes: reg.lanes.update(p, LaneView { last_active: now, ..reg.lanes[p] }),
        ..reg
    }
}

/// Whether a lane can be touched or switched to.
pub open spec fn reachable(reg: RegistryView, id: Seq<char>) -> bool {
    valid_lane_id(id) && has_lane(reg.lanes, id)
}

/// The registry after a switch at `now`. Switching to the active lane keeps
/// the one before it.
pub open spec fn switched(reg: RegistryView, id: Seq<char>, now: Seq<char>) -> RegistryView {
    let selected = if reg.active_id == id {
        reg
    } else {
        RegistryView { lanes: reg.lanes, active_id: id, previous_id: reg.active_id }
    };
    touched(selected, id, now)
}

/// The active lane: the one that is named active, else the first.
pub open spec fn active_lane(reg: RegistryView) -> LaneView {
    if has_lane(reg.lanes, reg.active_id) {
        reg.lanes[position(reg.lanes, reg.active_id)]
    } else {
        reg.lanes[0]
    }
}

// ---- validity ---------------------------------------------------------------

/// Whether a lane's own fields may be kept.
pub open spec fn well_formed_lane(lane: LaneView) -> bool {
    &&& valid_lane_id(lane.id)
    &&& valid_lane_name(lane.name)
    &&& valid_timestamp(lane.created_at)
    &&& valid_timestamp(lane.last_active)
}

/// Whether the number of interactions is in the exact integer range.
pub open spec fn safe_interactions(lane: LaneView) -> bool {
    lane.interactions is Some ==> lane.interactions->0 <= MAX_SAFE_SEQUENCE
}

/// No two lanes share an identifier.
pub open spec fn distinct_ids(lanes: Seq<LaneView>) -> bool {
    forall|i: int, j: int|
        0 <= i < j < lanes.len() ==> (#[trigger] lanes[i]).id != (#[trigger] lanes[j]).id
}

/// A registry that may be kept: one lane or more up to the limit, each well
/// formed, no identifier twice, and both selections among them.
pub open spec fn valid_registry(reg: RegistryView) -> bool {
    &&& 1 <= reg.lanes.len() <= MAX_LANE_COUNT
    &&& forall|i: int|
        0 <= i < reg.lanes.len() ==> well_formed_lane(#[trigger] reg.lanes[i])
            && safe_interactions(reg.lanes[i])
    &&& distinct_ids(reg.lanes)
    &&& has_lane(reg.lanes, reg.active_id)
    &&& has_lane(reg.lanes, reg.previous_id)
}

/// What is wrong with a registry.
pub enum RegistryFault {
    Empty,
    TooMany,
    Malformed(int),
    Interactions(int),
    Duplicate(Seq<char>),
    Selection,
}

/// What is wrong with the lane at `i`, seen after the lanes before it.
pub open spec fn lane_fault(lanes: Seq<LaneView>, i: int) -> Option<RegistryFault> {
    if !well_formed_lane(lanes[i]) {
        Some(RegistryFault::Malformed(i))
    } else if !safe_interactions(lanes[i]) {
        Some(RegistryFault::Interactions(i))
    } else if has_lane(lanes.take(i), lanes[i].id) {
        Some(RegistryFault::Duplicate(lanes[i].id))
    } else {
        None
    }
}

/// What is wrong with the first faulty lane from `i` on.
pub open spec fn first_lane_fault(lanes: Seq<LaneView>, i: int) -> Option<RegistryFault>
    decreases lanes.len() - i,
{
    if i < 0 || i >= lanes.len() {
        None
    } else if lane_fault(lanes, i) is Some {
        lane_fault(lanes, i)
    } else {
        first_lane_fault(lanes, i + 1)
    }
}

/// The first thing that is wrong with a registry.
pub open spec fn registry_fault(reg: RegistryView) -> Option<RegistryFault> {
    if reg.lanes.len() == 0 {
        Some(RegistryFault::Empty)
    } else if reg.lanes.len() > MAX_LANE_COUNT {
        Some(RegistryFault::TooMany)
    } else if first_lane_fault(reg.lanes, 0) is Some {
        first_lane_fault(reg.lanes, 0)
    } else if !has_lane(reg.lanes, reg.active_id) || !has_lane(reg.lanes, reg.previous_id) {
        Some(RegistryFault::Selection)
    } else {
        None
    }
}

/// A fault in words.
pub open spec fn fault_words(fault: RegistryFault) -> Seq<char> {
    match fault {
        RegistryFault::Empty => "lanes must not be empty"@,
        RegistryFault::TooMany => "lane count exceeds the 256 lane limit"@,
        RegistryFault::Malformed(i) => "malformed lane at index "@ + decimal(i as nat),
        RegistryFault::Interactions(i) => "lane at index "@ + decimal(i as nat)
            + " has an interaction count outside the JSON-safe range"@,
        RegistryFault::Duplicate(id) => "duplicate lane id "@ + id,
        RegistryFault::Selection => "active/previous lane is missing"@,
    }
}

proof fn lemma_no_lane_fault(lanes: Seq<LaneView>, i: int)
    requires
        0 <= i <= lanes.len(),
    ensures
        first_lane_fault(lanes, i) is None <==> (forall|k: int|
            i <= k < lanes.len() ==> #[trigger] lane_fault(lanes, k) is None),
    decreases lanes.len() - i,
{
    if i < lanes.len() {
        lemma_no_lane_fault(lanes, i + 1);
    }
}

/// A registry may be kept exactly when nothing is wrong with it.
pub proof fn law_valid_is_faultless(reg: RegistryView)
    ensures
        valid_registry(reg) <==> registry_fault(reg) is None,
{
    let lanes = reg.lanes;
    lemma_no_lane_fault(lanes, 0);
    if valid_registry(reg) {
        assert forall|k: int| 0 <= k < lanes.len() implies #[trigger] lane_fault(
            lanes,
            k,
        ) is None by {
            assert(well_formed_lane(lanes[k]));
            if has_lane(lanes.take(k), lanes[k].id) {
                let j = choose|j: int|
                    0 <= j < lanes.take(k).len() && (#[trigger] lanes.take(k)[j]).id == lanes[k].id;
                assert(lanes.take(k)[j] == lanes[j]);
            }
        }
    }
    if registry_fault(reg) is None {
        assert forall|i: int| 0 <= i < lanes.len() implies well_formed_lane(#[trigger] lanes[i])
            && safe_interactions(lanes[i]) by {
            assert(lane_fault(lanes, i) is None);
        }
        assert forall|i: int, j: int| 0 <= i < j < lanes.len() implies (#[trigger] lanes[i]).id != (
        #[trigger] lanes[j]).id by {
            assert(lane_fault(lanes, j) is None);
            assert(lanes.take(j)[i] == lanes[i]);
        }
    }
}

impl LaneRegistry {
    /// A registry with one lane, made at `now`.
    pub fn default_direct_at(now: &str) -> (r: LaneRegistry)
        ensures
            r@ == direct_registry(now@),
    {
        let lane = Lane {
            id: "telepathy:direct".to_string(),
            name: "direct".to_string(),
            created_at: now.to_string(),
            last_active: now.to_string(),
            interactions: None,
        };
        let mut lanes: Vec<Lane> = Vec::new();
        lanes.push(lane);
        let r = LaneRegistry {
            lanes,
            active_id: "telepathy:direct".to_string(),
            previous_id: "telepathy:direct".to_string(),
        };
        assert(r@.lanes =~= direct_registry(now@).lanes);
        r
    }

    /// A registry with one lane, made now.
    pub fn default_direct() -> (r: LaneRegistry)
        ensures
            exists|ms: u128| r@ == direct_registry(#[trigger] stamp(ms as nat)),
    {
        let now = now_iso();
        LaneRegistry::default_direct_at(now.as_str())
    }

    /// Checks that the registry may be kept, and says what is wrong with it
    /// first where it may not.
    pub fn validate(&self) -> (r: Result<(), String>)
        ensures
            match r {
                Ok(_) => registry_fault(self@) is None,
                Err(e) => registry_fault(self@) is Some && e@ == fault_words(
                    registry_fault(self@)->0,
                ),
            },
            r is Ok <==> valid_registry(self@),
    {
        proof {
            law_valid_is_faultless(self@);
        }
        if self.lanes.len() == 0 {
            return Err("lanes must not be empty".to_string());
        }
        if self.lanes.len() > MAX_LANE_COUNT {
            return Err("lane count exceeds the 256 lane limit".to_string());
        }
        let ghost lanes = self@.lanes;
        for i in 0..self.lanes.len()
            invariant
                lanes == self@.lanes,
                1 <= lanes.len() <= MAX_LANE_COUNT,
                first_lane_fault(lanes, 0) == first_lane_fault(lanes, i as int),
                valid_registry(self@) <==> registry_fault(self@) is None,
        {
            let lane = &self.lanes[i];
            assert(lane@ == lanes[i as int]);
            if !is_valid_lane_id(lane.id.as_str()) || !is_valid_persisted_lane_name(
                lane.name.as_str(),
            ) || !is_valid_lane_timestamp(lane.created_at.as_str()) || !is_valid_lane_timestamp(
                lane.last_active.as_str(),
            ) {
                let mut s = "malformed lane at index ".to_string();
                let d = decimal_text(i as u128);
                s.append(d.as_str());
                return Err(s);
            }
            let safe = match lane.interactions {
                Some(n) => n <= MAX_SAFE_SEQUENCE,
                None => true,
            };
            if !safe {
                let mut s = "lane at index ".to_string();
                let d = decimal_text(i as u128);
                s.append(d.as_str());
                s.append(" has an interaction count outside the JSON-safe range");
                return Err(s);
            }
            let mut j: usize = 0;
            while j < i
                invariant
                    i < self.lanes@.len(),
                    lanes == self@.lanes,
                    lane@ == lanes[i as int],
                    1 <= lanes.len() <= MAX_LANE_COUNT,
                    well_formed_lane(lanes[i as int]),
                    safe_interactions(lanes[i as int]),
                    first_lane_fault(lanes, 0) == first_lane_fault(lanes, i as int),
                    valid_registry(self@) <==> registry_fault(self@) is None,
                    j <= i,
                    forall|k: int| 0 <= k < j ==> (#[trigger] lanes[k]).id != lanes[i as int].id,
                decreases i - j,
            {
                if same_text(self.lanes[j].id.as_str(), lane.id.as_str()) {
                    assert(lanes.take(i as int)[j as int] == lanes[j as int]);
                    assert(has_lane(lanes.take(i as int), lanes[i as int].id));
                    let mut s = "duplicate lane id ".to_string();
                    s.append(lane.id.as_str());
                    return Err(s);
                }
                j = j + 1;
            }
            assert(!has_lane(lanes.take(i as int), lanes[i as int].id)) by {
                assert forall|k: int| 0 <= k < i implies (#[trigger] lanes.take(i as int)[k]).id
                    != lanes[i as int].id by {
                    assert(lanes.take(i as int)[k] == lanes[k]);
                }
            }
        }
        let a: usize = find_lane(&self.lanes, self.active_id.as_str());
        let p: usize = find_lane(&self.lanes, self.previous_id.as_str());
        proof {
            lemma_position(lanes, self@.active_id);
            lemma_position(lanes, self@.previous_id);
        }
        if a == self.lanes.len() || p == self.lanes.len() {
            return Err("active/previous lane is missing".to_string());
        }
        Ok(())
    }

    /// Whether a lane has this identifier.
    pub fn knows(&self, id: &str) -> (r: bool)
        ensures
            r == has_lane(self@.lanes, id@),
    {
        proof {
            lemma_position(self@.lanes, id@);
        }
        find_lane(&self.lanes, id) < self.lanes.len()
    }

    /// The active lane, the first one where the named lane is missing.
    pub fn active(&self) -> (r: &Lane)
        requires
            self@.lanes.len() > 0,
        ensures
            r@ == active_lane(self@),
    {
        let p: usize = find_lane(&self.lanes, self.active_id.as_str());
        proof {
            lemma_position(self@.lanes, self@.active_id);
        }
        if p < self.lanes.len() {
            &self.lanes[p]
        } else {
            &self.lanes[0]
        }
    }

    /// Records activity on a lane at `now`; nothing happens where there is no
    /// such lane.
    pub fn touch_at(&mut self, id: &str, now: &str) -> (r: Option<()>)
        ensures
            r is Some <==> reachable(old(self)@, id@),
            final(self)@ == (if reachable(old(self)@, id@) {
                touched(old(self)@, id@, now@)
            } else {
                old(self)@
            }),
    {
        if !is_valid_lane_id(id) {
            return None;
        }
        let p: usize = find_lane(&self.lanes, id);
        proof {
            lemma_position(self@.lanes, id@);
        }
        if p == self.lanes.len() {
            return None;
        }
        self.lanes[p].last_active = now.to_string();
        assert(self@.lanes =~= touched(old(self)@, id@, now@).lanes);
        Some(())
    }

    /// Records activity on a lane now.
    pub fn touch(&mut self, id: &str) -> (r: Option<()>)
        ensures
            r is Some <==> reachable(old(self)@, id@),
            r is None ==> final(self)@ == old(self)@,
            r is Some ==> exists|ms: u128|
                final(self)@ == touched(old(self)@, id@, #[trigger] stamp(ms as nat)),
    {
        let now = now_iso();
        self.touch_at(id, now.as_str())
    }

    /// Makes a lane the active one at `now` and hands it back; nothing happens
    /// where there is no such lane.
    pub fn switch_at(&mut self, id: &str, now: &str) -> (r: Option<Lane>)
        ensures
            r is Some <==> reachable(old(self)@, id@),
            r is None ==> final(self)@ == old(self)@,
            r is Some ==> final(self)@ == switched(old(self)@, id@, now@) && r->0@
                == final(self)@.lanes[position(final(self)@.lanes, id@)],
    {
        if !is_valid_lane_id(id) {
            return None;
        }
        proof {
            lemma_position(self@.lanes, id@);
        }
        let p: usize = find_lane(&self.lanes, id);
        if p == self.lanes.len() {
            return None;
        }
        if !same_text(self.active_id.as_str(), id) {
            self.previous_id = self.active_id.clone();
            self.active_id = id.to_string();
        }
        let _ = self.touch_at(id, now);
        proof {
            lemma_position_at(self@.lanes, id@, p as int);
        }
        Some(self.lanes[p].clone())
    }

    /// Makes a lane the active one now and hands it back.
    pub fn switch(&mut self, id: &str) -> (r: Option<Lane>)
        ensures
            r is Some <==> reachable(old(self)@, id@),
            r is None ==> final(self)@ == old(self)@,
            r is Some ==> exists|ms: u128|
                final(self)@ == switched(old(self)@, id@, #[trigger] stamp(ms as nat)),
            r is Some ==> r->0@ == final(self)@.lanes[position(final(self)@.lanes, id@)],
    {
        let now = now_iso();
        self.switch_at(id, now.as_str())
    }

    /// Checks a requested lane name without looking at a registry.
    pub fn validate_create_name(name: &str) -> (r: Result<(), LaneCreateError>)
        ensures
            match r {
                Ok(_) => name_refusal(name@) is None,
                Err(e) => name_refusal(name@) == Some(e),
            },
    {
        if is_blank(name) {
            return Err(LaneCreateError::BlankName);
        }
        let s = slugify(name);
        if s.as_str().is_empty() {
            return Err(LaneCreateError::InvalidGeneratedId);
        }
        let id = slug_id_text(s.as_str());
        if !is_valid_lane_id(id.as_str()) {
            return Err(LaneCreateError::InvalidGeneratedId);
        }
        Ok(())
    }

    /// Checks a requested lane name against this registry.
    pub fn validate_create(&self, name: &str) -> (r: Result<(), LaneCreateError>)
        ensures
            match r {
                Ok(_) => create_refusal(self@.lanes, name@) is None,
                Err(e) => create_refusal(self@.lanes, name@) == Some(e),
            },
    {
        match LaneRegistry::validate_create_name(name) {
            Err(e) => {
                return Err(e);
            },
            Ok(_) => {},
        }
        let s = slugify(name);
        let id = slug_id_text(s.as_str());
        if !self.knows(id.as_str()) && self.lanes.len() >= MAX_LANE_COUNT {
            return Err(LaneCreateError::CapacityReached);
        }
        Ok(())
    }

    /// Creates a lane at `now`, or finds the one that exists. Does not switch.
    pub fn create_at(&mut self, name: &str, now: &str) -> (r: Result<Lane, LaneCreateError>)
        ensures
            match r {
                Ok(lane) => create_refusal(old(self)@.lanes, name@) is None && final(self)@
                    == created(old(self)@, name@, now@) && lane@ == created_lane(
                    old(self)@,
                    name@,
                    now@,
                ),
                Err(e) => create_refusal(old(self)@.lanes, name@) == Some(e) && final(self)@ == old(
                    self,
                )@,
            },
    {
        match self.validate_create(name) {
            Err(e) => {
                return Err(e);
            },
            Ok(_) => {},
        }
        let s = slugify(name);
        let id = slug_id_text(s.as_str());
        let p: usize = find_lane(&self.lanes, id.as_str());
        proof {
            lemma_position(self@.lanes, id@);
        }
        if p < self.lanes.len() {
            return Ok(self.lanes[p].clone());
        }
        let lane = Lane {
            id,
            name: s,
            created_at: now.to_string(),
            last_active: now.to_string(),
            interactions: None,
        };
        self.lanes.push(lane.clone());
        assert(self@.lanes =~= created(old(self)@, name@, now@).lanes);
        Ok(lane)
    }

    /// Creates a lane now, or finds the one that exists. Does not switch.
    pub fn create(&mut self, name: &str) -> (r: Result<Lane, LaneCreateError>)
        ensures
            match r {
                Ok(lane) => create_refusal(old(self)@.lanes, name@) is None && exists|ms: u128|
                    final(self)@ == created(old(self)@, name@, #[trigger] stamp(ms as nat)) && lane@
                        == created_lane(old(self)@, name@, stamp(ms as nat)),
                Err(e) => create_refusal(old(self)@.lanes, name@) == Some(e) && final(self)@ == old(
                    self,
                )@,
            },
    {
        let now = now_iso();
        self.create_at(name, now.as_str())
    }
}

/// The registry that a first start has.
pub open spec fn direct_registry(now: Seq<char>) -> RegistryView {
    RegistryView {
        lanes: seq![
            LaneView {
                id: "telepathy:direct"@,
                name: "direct"@,
                created_at: now,
                last_active: now,
                interactions: None,
            },
        ],
        active_id: "telepathy:direct"@,
        previous_id: "telepathy:direct"@,
    }
}

// ---- what every operation keeps ---------------------------------------------

/// The first registry may be kept.
pub proof fn law_direct_registry_is_valid(now: Seq<char>)
    requires
        valid_timestamp(now),
    ensures
        valid_registry(direct_registry(now)),
{
    reveal_strlit("telepathy:direct");
    reveal_strlit("direct");
    let reg = direct_registry(now);
    crate::proto::lemma_ascii_lengths("direct"@);
    assert(reg.lanes[0].id == reg.active_id);
}

/// Touching a lane keeps the registry valid and every identifier in place.
pub proof fn law_touch_keeps_validity(reg: RegistryView, id: Seq<char>, now: Seq<char>)
    requires
        valid_registry(reg),
        reachable(reg, id),
        valid_timestamp(now),
    ensures
        valid_registry(touched(reg, id, now)),
        touched(reg, id, now).active_id == reg.active_id,
        touched(reg, id, now).previous_id == reg.previous_id,
        touched(reg, id, now).lanes.len() == reg.lanes.len(),
        forall|i: int|
            0 <= i < reg.lanes.len() ==> (#[trigger] touched(reg, id, now).lanes[i]).id
                == reg.lanes[i].id,
{
    lemma_position(reg.lanes, id);
    let p = position(reg.lanes, id);
    let t = touched(reg, id, now).lanes;
    assert forall|i: int| 0 <= i < t.len() implies well_formed_lane(#[trigger] t[i])
        && safe_interactions(t[i]) && t[i].id == reg.lanes[i].id by {
        assert(well_formed_lane(reg.lanes[i]));
    }
    let a = choose|i: int| 0 <= i < reg.lanes.len() && (#[trigger] reg.lanes[i]).id == reg.active_id;
    let b = choose|i: int|
        0 <= i < reg.lanes.len() && (#[trigger] reg.lanes[i]).id == reg.previous_id;
    assert(t[a].id == reg.active_id);
    assert(t[b].id == reg.previous_id);
}

/// Switching keeps the registry valid, makes the lane active, and remembers
/// the lane that was active before, unless it was active already.
pub proof fn law_switch_keeps_validity(reg: RegistryView, id: Seq<char>, now: Seq<char>)
    requires
        valid_registry(reg),
        reachable(reg, id),
        valid_timestamp(now),
    ensures
        valid_registry(switched(reg, id, now)),
        switched(reg, id, now).active_id == id,
        switched(reg, id, now).previous_id == (if reg.active_id == id {
            reg.previous_id
        } else {
            reg.active_id
        }),
        active_lane(switched(reg, id, now)).id == id,
{
    let selected = if reg.active_id == id {
        reg
    } else {
        RegistryView { lanes: reg.lanes, active_id: id, previous_id: reg.active_id }
    };
    law_touch_keeps_validity(selected, id, now);
    lemma_position(switched(reg, id, now).lanes, id);
}

/// Creating keeps the registry valid, keeps every lane that was there, leaves
/// the selection alone, and the lane it hands back is in the registry.
pub proof fn law_create_keeps_validity(reg: RegistryView, name: Seq<char>, now: Seq<char>)
    requires
        valid_registry(reg),
        create_refusal(reg.lanes, name) is None,
        valid_timestamp(now),
    ensures
        valid_registry(created(reg, name, now)),
        created(reg, name, now).active_id == reg.active_id,
        created(reg, name, now).previous_id == reg.previous_id,
        reg.lanes.len() <= created(reg, name, now).lanes.len(),
        created(reg, name, now).lanes.take(reg.lanes.len() as int) == reg.lanes,
        created_lane(reg, name, now).id == slug_id(name),
        reachable(created(reg, name, now), created_lane(reg, name, now).id),
{
    let c = created(reg, name, now);
    lemma_position(reg.lanes, slug_id(name));
    assert(c.lanes.take(reg.lanes.len() as int) =~= reg.lanes);
    let a = choose|i: int| 0 <= i < reg.lanes.len() && (#[trigger] reg.lanes[i]).id == reg.active_id;
    let b = choose|i: int|
        0 <= i < reg.lanes.len() && (#[trigger] reg.lanes[i]).id == reg.previous_id;
    assert(c.lanes[a].id == reg.active_id);
    assert(c.lanes[b].id == reg.previous_id);
    if !has_lane(reg.lanes, slug_id(name)) {
        let f = fresh_lane(name, now);
        let p = "telepathy:repo:"@;
        crate::proto::law_lane_id_lengths_agree(f.id);
        lemma_encode_add(p, f.name);
        assert forall|i: int| 0 <= i < f.name.len() implies (#[trigger] f.name[i] as u32)
            < 0x80 by {
            assert(f.id[p.len() + i] == f.name[i]);
            assert(lane_char(f.id[p.len() + i]));
        }
        crate::proto::lemma_ascii_lengths(f.name);
        assert(well_formed_lane(f));
        assert forall|i: int| 0 <= i < c.lanes.len() implies well_formed_lane(#[trigger] c.lanes[i])
            && safe_interactions(c.lanes[i]) by {
            if i < reg.lanes.len() {
                assert(well_formed_lane(reg.lanes[i]));
            }
        }
        assert(c.lanes[reg.lanes.len() as int].id == slug_id(name));
    }
}

/// Creating a lane that was just created hands back the same lane and changes
/// nothing.
pub proof fn law_create_again_finds_the_lane(
    reg: RegistryView,
    name: Seq<char>,
    now: Seq<char>,
    later: Seq<char>,
)
    requires
        create_refusal(reg.lanes, name) is None,
    ensures
        create_refusal(created(reg, name, now).lanes, name) is None,
        created(created(reg, name, now), name, later) == created(reg, name, now),
        created_lane(created(reg, name, now), name, later) == created_lane(reg, name, now),
{
    let c = created(reg, name, now);
    if !has_lane(reg.lanes, slug_id(name)) {
        assert(c.lanes[reg.lanes.len() as int].id == slug_id(name));
        lemma_position(reg.lanes, slug_id(name));
        assert forall|k: int| 0 <= k < reg.lanes.len() implies (#[trigger] c.lanes[k]).id
            != slug_id(name) by {
            assert(c.lanes[k] == reg.lanes[k]);
        }
        lemma_position_at(c.lanes, slug_id(name), reg.lanes.len() as int);
    }
    assert(has_lane(c.lanes, slug_id(name)));
}

/// A name in plain words is kept as it is, with a dash for each space.
pub proof fn law_slug_of_plain_words(name: Seq<char>)
    requires
        crate::lookup::plain_words(name),
    ensures
        slug(name).len() == name.len(),
        forall|i: int|
            0 <= i < name.len() ==> #[trigger] slug(name)[i] == (if name[i] == ' ' {
                '-'
            } else {
                name[i]
            }),
        slug_id(name) == "telepathy:repo:"@ + slug(name),
{
    crate::lookup::lemma_plain_words_are_lower(name);
    let d = dashed(name);
    assert forall|i: int| 0 <= i < name.len() implies #[trigger] d[i] == (if name[i] == ' ' {
        '-'
    } else {
        name[i]
    }) by {
        assert(plain_char(name[i]) || name[i] == ' ');
    }
    if name.len() > 0 {
        assert(plain_char(name[0]) || name[0] == ' ');
        assert(plain_char(name[name.len() - 1]) || name[name.len() - 1] == ' ');
    }
}

} // verus!
