//! Timestamps: epoch milliseconds in a tagged text, and how long ago one was.
use vstd::prelude::*;
use vstd::string::*;

use crate::text::{decimal, decimal_text, has_prefix, number, parse_number, strip_prefix};

verus! {

/// `SystemTime::elapsed` of the Unix epoch, in milliseconds; zero where the
/// clock stands before the epoch. Nothing is said of what the clock shows.
#[verifier::external_body]
pub(crate) fn epoch_ms() -> (ms: u128)
{
    std::time::UNIX_EPOCH.elapsed().map(|d| d.as_millis()).unwrap_or(0)
}

/// The milliseconds of a 64-bit clock, which stops at its largest value.
pub fn clock_ms(ms: u128) -> (r: u64)
    ensures
        r == (if ms <= u64::MAX {
            ms
        } else {
            u64::MAX as u128
        }),
{
    if ms <= u64::MAX as u128 {
        ms as u64
    } else {
        u64::MAX
    }
}

/// The wall clock in milliseconds. What it shows is up to the machine.
pub fn wall_clock_millis() -> (r: u64)
{
    clock_ms(epoch_ms())
}

/// The timestamp of an instant, given in milliseconds since the epoch.
pub open spec fn stamp(ms: nat) -> Seq<char> {
    "epoch-ms:"@ + decimal(ms)
}

/// The timestamp of an instant, given in milliseconds since the epoch.
pub fn stamp_text(ms: u128) -> (r: String)
    ensures
        r@ == stamp(ms as nat),
{
    let mut s = "epoch-ms:".to_string();
    let d = decimal_text(ms);
    s.append(d.as_str());
    s
}

/// The timestamp of the present instant.
pub fn now_iso() -> (r: String)
    ensures
        exists|ms: u128| r@ == #[trigger] stamp(ms as nat),
{
    let ms: u128 = epoch_ms();
    stamp_text(ms)
}

/// The instant of a timestamp, zero where the text is no timestamp.
pub open spec fn stamp_ms(s: Seq<char>) -> nat {
    if has_prefix(s, "epoch-ms:"@) {
        match number(s.skip("epoch-ms:"@.len() as int)) {
            Some(n) => if n <= u128::MAX {
                n
            } else {
                0
            },
            None => 0,
        }
    } else {
        0
    }
}

/// Whole hours from `since` to `now`, zero where `since` is later.
pub open spec fn hours_between(since: nat, now: nat) -> nat {
    if now < since {
        0
    } else {
        ((now - since) / 3_600_000) as nat
    }
}

/// A number of hours in words.
pub open spec fn hours_words(n: nat) -> Seq<char> {
    if n == 0 {
        "under an hour"@
    } else if n == 1 {
        "1 hour"@
    } else {
        decimal(n) + " hours"@
    }
}

/// How long before `now` the timestamp lies, in words.
pub open spec fn age_words(last_active: Seq<char>, now: nat) -> Seq<char> {
    hours_words(hours_between(stamp_ms(last_active), now))
}

/// How long before `now_ms` the timestamp lies, in words.
pub fn age_summary_at(last_active: &str, now_ms: u128) -> (r: String)
    ensures
        r@ == age_words(last_active@, now_ms as nat),
{
    let since: u128 = match strip_prefix(last_active, "epoch-ms:") {
        Some(digits) => match parse_number(digits, u128::MAX) {
            Some(n) => n,
            None => 0,
        },
        None => 0,
    };
    let elapsed: u128 = if now_ms < since {
        0
    } else {
        now_ms - since
    };
    let hours: u128 = elapsed / 3_600_000;
    if hours == 0 {
        "under an hour".to_string()
    } else if hours == 1 {
        "1 hour".to_string()
    } else {
        let mut s = decimal_text(hours);
        s.append(" hours");
        s
    }
}

/// How long ago the timestamp lies, in words.
pub fn age_summary(last_active: &str) -> (r: String)
    ensures
        exists|now: u128| r@ == #[trigger] age_words(last_active@, now as nat),
{
    let now: u128 = epoch_ms();
    age_summary_at(last_active, now)
}

/// A timestamp gives its instant back.
pub proof fn law_stamp_reads_back(ms: u128)
    ensures
        stamp_ms(stamp(ms as nat)) == ms,
{
    let p = "epoch-ms:"@;
    crate::text::law_decimal_reads_back(ms as nat);
    assert(stamp(ms as nat).take(p.len() as int) =~= p);
    assert(stamp(ms as nat).skip(p.len() as int) =~= decimal(ms as nat));
}

/// An age is spoken in whole hours: under an hour, one hour, or their number; a
/// time that is still to come counts as now.
pub proof fn law_age_is_in_whole_hours(since: u128, hours: nat, rest: nat)
    requires
        rest < 3_600_000,
    ensures
        ({
            let words = age_words(stamp(since as nat), since as nat + hours * 3_600_000 + rest);
            &&& hours == 0 ==> words == "under an hour"@
            &&& hours == 1 ==> words == "1 hour"@
            &&& hours > 1 ==> words == decimal(hours) + " hours"@
        }),
        forall|now: nat|
            now < since ==> #[trigger] age_words(stamp(since as nat), now) == "under an hour"@,
{
    law_stamp_reads_back(since);
    assert((hours * 3_600_000 + rest) / 3_600_000 == hours) by (nonlinear_arith)
        requires
            rest < 3_600_000,
            hours >= 0,
            rest >= 0,
    ;
}

} // verus!
