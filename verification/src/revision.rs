//! Revisions of the lane registry. Each process has a generation of its own in
//! the high bits, so that a restart never repeats a revision.
use vstd::prelude::*;
use vstd::string::*;

use crate::proto::MAX_SAFE_SEQUENCE;
use crate::text::{decimal, decimal_text, number, trim, trimmed};

verus! {

/// Revisions in one generation.
pub const REGISTRY_REVISION_GENERATION_STRIDE: u64 = 4_294_967_296;

/// The last revision of the first generation.
pub const REGISTRY_REVISION_MUTATION_MASK: u64 = 4_294_967_295;

/// The last generation within the exact integer range.
pub const MAX_REGISTRY_REVISION_GENERATION: u64 = 2_097_151;

/// Why there is no next generation.
#[derive(Debug)]
pub enum GenerationError {
    /// The stored generation is no number, and what is wrong with it.
    Unreadable(String),
    /// The stored generation is out of range.
    TooHigh,
    /// The stored generation is the last one.
    Exhausted,
}

/// Why there is no next generation, as a value.
pub enum GenerationFault {
    Unreadable(Seq<char>),
    TooHigh,
    Exhausted,
}

impl View for GenerationError {
    type V = GenerationFault;

    open spec fn view(&self) -> GenerationFault {
        match self {
            GenerationError::Unreadable(e) => GenerationFault::Unreadable(e@),
            GenerationError::TooHigh => GenerationFault::TooHigh,
            GenerationError::Exhausted => GenerationFault::Exhausted,
        }
    }
}

impl GenerationFault {
    /// The refusal in words.
    pub open spec fn words(self) -> Seq<char> {
        match self {
            GenerationFault::Unreadable(e) => "invalid registry revision generation: "@ + e,
            GenerationFault::TooHigh => "registry revision generation exceeds the JSON-safe limit"@,
            GenerationFault::Exhausted =>
                "registry revision generation exhausted at the JSON-safe limit"@,
        }
    }
}

impl GenerationError {
    /// The refusal in words.
    pub fn message(&self) -> (r: String)
        ensures
            r@ == self@.words(),
    {
        match self {
            GenerationError::Unreadable(e) => {
                let mut s = "invalid registry revision generation: ".to_string();
                s.append(e.as_str());
                s
            },
            GenerationError::TooHigh =>
                "registry revision generation exceeds the JSON-safe limit".to_string(),
            GenerationError::Exhausted =>
                "registry revision generation exhausted at the JSON-safe limit".to_string(),
        }
    }
}

/// Why there is no next revision.
#[derive(Debug, Clone, Copy, PartialEq, Eq, Structural)]
pub enum RevisionError {
    /// This is the last revision of its generation.
    Exhausted(u64),
}

impl RevisionError {
    /// The refusal in words.
    pub open spec fn words(self) -> Seq<char> {
        match self {
            RevisionError::Exhausted(current) => "registry revision exhausted at "@ + decimal(
                current as nat,
            ) + "; restart is required before another lane mutation"@,
        }
    }

    /// The refusal in words.
    pub fn message(&self) -> (r: String)
        ensures
            r@ == self.words(),
    {
        match self {
            RevisionError::Exhausted(current) => {
                let mut s = "registry revision exhausted at ".to_string();
                let d = decimal_text(*current as u128);
                s.append(d.as_str());
                s.append("; restart is required before another lane mutation");
                s
            },
        }
    }
}

/// What `str::parse` says of a text that is no `u64`.
pub uninterp spec fn integer_fault(s: Seq<char>) -> Seq<char>;

/// `str::parse` into a `u64`, its error in words (`ParseIntError`'s `Display`):
/// digits, with a plus sign before them or without, are read while their value
/// fits; what is said of any other text is named.
#[verifier::external_body]
fn parse_integer(s: &str) -> (r: Result<u64, String>)
    ensures
        match r {
            Ok(n) => number(s@) == Some(n as nat),
            Err(e) => (number(s@) is None || number(s@)->0 > u64::MAX) && e@ == integer_fault(s@),
        },
{
    match s.parse::<u64>() {
        Ok(n) => Ok(n),
        Err(e) => Err(e.to_string()),
    }
}

/// The generation after the stored one; the first where none is stored.
pub open spec fn next_generation(stored: Option<Seq<char>>) -> Result<u64, GenerationFault> {
    match stored {
        None => Ok(1),
        Some(text) => {
            let t = trimmed(text);
            match number(t) {
                None => Err(GenerationFault::Unreadable(integer_fault(t))),
                Some(n) => if n > u64::MAX {
                    Err(GenerationFault::Unreadable(integer_fault(t)))
                } else if n > MAX_REGISTRY_REVISION_GENERATION {
                    Err(GenerationFault::TooHigh)
                } else if n == MAX_REGISTRY_REVISION_GENERATION {
                    Err(GenerationFault::Exhausted)
                } else {
                    Ok((n + 1) as u64)
                },
            }
        },
    }
}

/// The first revision of a generation.
pub open spec fn first_revision(generation: u64) -> nat {
    generation as nat * REGISTRY_REVISION_GENERATION_STRIDE as nat
}

/// The generation that this process takes and its first revision, from the
/// stored generation. The generation is to be stored before it is used.
pub fn next_registry_revision(stored: Option<&str>) -> (r: Result<(u64, u64), GenerationError>)
    ensures
        match r {
            Ok((generation, revision)) => next_generation(crate::text::opt_str_view(stored))
                == Ok::<u64, GenerationFault>(generation) && revision == first_revision(generation),
            Err(e) => next_generation(crate::text::opt_str_view(stored)) == Err::<
                u64,
                GenerationFault,
            >(e@),
        },
{
    let current: u64 = match stored {
        Some(text) => match parse_integer(trim(text)) {
            Ok(n) => n,
            Err(e) => {
                return Err(GenerationError::Unreadable(e));
            },
        },
        None => 0,
    };
    if current > MAX_REGISTRY_REVISION_GENERATION {
        return Err(GenerationError::TooHigh);
    }
    if current == MAX_REGISTRY_REVISION_GENERATION {
        return Err(GenerationError::Exhausted);
    }
    let generation: u64 = current + 1;
    Ok((generation, generation * REGISTRY_REVISION_GENERATION_STRIDE))
}

/// The revision after this one, which stays in its generation and in the exact
/// integer range.
pub open spec fn next_revision(current: u64) -> Option<u64> {
    if current >= MAX_SAFE_SEQUENCE || current % REGISTRY_REVISION_GENERATION_STRIDE
        == REGISTRY_REVISION_MUTATION_MASK {
        None
    } else {
        Some((current + 1) as u64)
    }
}

/// The revision after this one.
pub fn advance_registry_revision(current: u64) -> (r: Result<u64, RevisionError>)
    ensures
        match r {
            Ok(n) => next_revision(current) == Some(n),
            Err(e) => next_revision(current) is None && e == RevisionError::Exhausted(current),
        },
{
    if current >= MAX_SAFE_SEQUENCE || current % REGISTRY_REVISION_GENERATION_STRIDE
        == REGISTRY_REVISION_MUTATION_MASK {
        Err(RevisionError::Exhausted(current))
    } else {
        Ok(current + 1)
    }
}

/// A process that stores its generation and moves on from there shares no
/// revision with the processes before it: its revisions stay in its generation,
/// rise, and are exact integers.
pub proof fn law_generations_share_no_revision(generation: u64, current: u64)
    requires
        generation <= MAX_REGISTRY_REVISION_GENERATION,
        first_revision(generation) <= current < first_revision((generation + 1) as u64),
        next_revision(current) is Some,
    ensures
        first_revision(generation) < next_revision(current)->0 < first_revision(
            (generation + 1) as u64,
        ),
        next_revision(current)->0 <= MAX_SAFE_SEQUENCE,
        next_revision(current)->0 > current,
{
    let stride = REGISTRY_REVISION_GENERATION_STRIDE as int;
    let d = current - generation * stride;
    assert(0 <= d < stride);
    assert(current as int % stride == d) by {
        vstd::arithmetic::div_mod::lemma_fundamental_div_mod_converse(
            current as int,
            stride,
            generation as int,
            d,
        );
    }
    assert(d != stride - 1);
    assert(first_revision((generation + 1) as u64) == generation * stride + stride)
        by (nonlinear_arith)
        requires
            stride == REGISTRY_REVISION_GENERATION_STRIDE as int,
            first_revision((generation + 1) as u64) == ((generation + 1) as u64) as nat
                * REGISTRY_REVISION_GENERATION_STRIDE as nat,
            generation <= MAX_REGISTRY_REVISION_GENERATION,
    ;
}

/// A revision goes up by one, until its generation is used up.
pub proof fn law_revision_goes_up_by_one(current: u64)
    ensures
        next_revision(current) is Some ==> next_revision(current)->0 == current + 1,
        current < MAX_SAFE_SEQUENCE && current % 4_294_967_296 < 4_294_967_295 ==> next_revision(
            current,
        ) is Some,
{
}

/// The generation goes up by one with every start, from the number that is
/// stored.
pub proof fn law_generation_goes_up_by_one(stored: u64)
    requires
        stored < MAX_REGISTRY_REVISION_GENERATION,
    ensures
        next_generation(None) == Ok::<u64, GenerationFault>(1),
        next_generation(Some(crate::text::decimal(stored as nat))) == Ok::<u64, GenerationFault>(
            (stored + 1) as u64,
        ),
        first_revision((stored + 1) as u64) == (stored + 1) * 4_294_967_296,
{
    let t = crate::text::decimal(stored as nat);
    crate::text::law_decimal_reads_back(stored as nat);
    assert(crate::text::is_digit(t[0]));
    assert(crate::text::is_digit(t[t.len() - 1]));
    crate::text::lemma_trimmed_start_at(t, 0);
    assert(t.skip(0) =~= t);
    crate::text::lemma_trimmed_end_at(t, t.len() as int);
    assert(t.take(t.len() as int) =~= t);
}

} // verus!
