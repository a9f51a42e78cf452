//! The ledger of completed voice turns. Each is counted once: a retry within
//! the window finds its record, and what the journal holds is made good after a
//! crash.
use vstd::prelude::*;
use vstd::string::*;

use crate::lanes::{
    find_lane, has_lane, lane_views, lemma_position, position, Lane, LaneRegistry, LaneView,
    RegistryView,
};
use crate::proto::{
    is_valid_lane_id, is_valid_opaque_id, valid_lane_id, valid_opaque_id, MAX_SAFE_SEQUENCE,
};
use crate::relay::results::lemma_filter_push;
use crate::text::{blank, decimal, decimal_text, is_blank, number, same_text};
use crate::value::{json_parsed, parse_json};

verus! {

/// How long a completed turn may be reported again, in milliseconds.
pub const INTERACTION_DEDUPE_WINDOW_MS: u64 = 604_800_000;

/// Most records in the ledger.
pub const MAX_INTERACTION_DEDUPE_ENTRIES: usize = 10_000;

/// Most lines in the journal before it is folded into the snapshot.
pub const MAX_INTERACTION_JOURNAL_ENTRIES: usize = 128;

/// How far ahead of this clock a turn's own time may be, in milliseconds.
pub const MAX_INTERACTION_FUTURE_SKEW_MS: u64 = 300_000;

/// The format of the ledger's snapshot.
pub const INTERACTION_LEDGER_VERSION: u32 = 2;

/// One completed voice turn, with the lane's count after it.
#[derive(Debug, PartialEq)]
pub struct InteractionEntry {
    pub interaction_id: String,
    pub lane_id: String,
    pub interaction_created_at_ms: u64,
    pub lane_interactions: u64,
}

/// A completed turn as a value.
#[verifier::ext_equal]
pub struct EntryView {
    pub interaction_id: Seq<char>,
    pub lane_id: Seq<char>,
    pub interaction_created_at_ms: u64,
    pub lane_interactions: u64,
}

impl View for InteractionEntry {
    type V = EntryView;

    open spec fn view(&self) -> EntryView {
        EntryView {
            interaction_id: self.interaction_id@,
            lane_id: self.lane_id@,
            interaction_created_at_ms: self.interaction_created_at_ms,
            lane_interactions: self.lane_interactions,
        }
    }
}

impl Clone for InteractionEntry {
    fn clone(&self) -> (r: Self)
        ensures
            r@ == self@,
    {
        InteractionEntry {
            interaction_id: self.interaction_id.clone(),
            lane_id: self.lane_id.clone(),
            interaction_created_at_ms: self.interaction_created_at_ms,
            lane_interactions: self.lane_interactions,
        }
    }
}

/// The values of a run of records.
pub open spec fn entry_views(v: Seq<InteractionEntry>) -> Seq<EntryView> {
    Seq::new(v.len(), |i: int| v[i]@)
}

/// The records in memory, and what is known of their files.
#[derive(Debug)]
pub struct InteractionLedger {
    /// No two share an identifier.
    pub entries: Vec<InteractionEntry>,
    /// Lines in the journal.
    pub journal_entries: usize,
    /// Whether the files still hold records that were given up.
    pub needs_durable_compaction: bool,
}

/// The ledger as a value.
#[verifier::ext_equal]
pub struct LedgerView {
    pub entries: Seq<EntryView>,
    pub journal_entries: usize,
    pub needs_durable_compaction: bool,
}

impl View for InteractionLedger {
    type V = LedgerView;

    open spec fn view(&self) -> LedgerView {
        LedgerView {
            entries: entry_views(self.entries@),
            journal_entries: self.journal_entries,
            needs_durable_compaction: self.needs_durable_compaction,
        }
    }
}

/// A ledger that holds nothing.
pub open spec fn empty_ledger() -> LedgerView {
    LedgerView { entries: Seq::empty(), journal_entries: 0, needs_durable_compaction: false }
}

impl Default for InteractionLedger {
    fn default() -> (r: Self)
        ensures
            r@ == empty_ledger(),
    {
        let r = InteractionLedger {
            entries: Vec::new(),
            journal_entries: 0,
            needs_durable_compaction: false,
        };
        assert(r@ =~= empty_ledger());
        r
    }
}

impl Clone for InteractionLedger {
    fn clone(&self) -> (r: Self)
        ensures
            r@ == self@,
    {
        let entries = self.entries.clone();
        assert(entry_views(entries@) =~= entry_views(self.entries@));
        InteractionLedger {
            entries,
            journal_entries: self.journal_entries,
            needs_durable_compaction: self.needs_durable_compaction,
        }
    }
}

/// No two records share an identifier.
pub open spec fn distinct_entries(v: Seq<EntryView>) -> bool {
    forall|i: int, j: int|
        0 <= i < j < v.len() ==> (#[trigger] v[i]).interaction_id != (
        #[trigger] v[j]).interaction_id
}

// ---- faults ---------------------------------------------------------------------

/// Why a ledger or one of its records is not accepted.
#[derive(Debug)]
pub enum LedgerError {
    Snapshot(String),
    InvalidId,
    InvalidLane,
    UnsafeCount(u64),
    Conflict(String),
    BlankLine(usize),
    JournalBound,
    CorruptLine(usize, String),
    DedupeBound,
    UnknownLane(String),
    Version,
    Registry(String),
    CountExhausted,
}

/// Why a ledger is not accepted, as a value.
pub enum LedgerFault {
    Snapshot(Seq<char>),
    InvalidId,
    InvalidLane,
    UnsafeCount(u64),
    Conflict(Seq<char>),
    BlankLine(usize),
    JournalBound,
    CorruptLine(usize, Seq<char>),
    DedupeBound,
    UnknownLane(Seq<char>),
    Version,
    Registry(Seq<char>),
    CountExhausted,
}

impl View for LedgerError {
    type V = LedgerFault;

    open spec fn view(&self) -> LedgerFault {
        match self {
            LedgerError::Snapshot(e) => LedgerFault::Snapshot(e@),
            LedgerError::InvalidId => LedgerFault::InvalidId,
            LedgerError::InvalidLane => LedgerFault::InvalidLane,
            LedgerError::UnsafeCount(n) => LedgerFault::UnsafeCount(*n),
            LedgerError::Conflict(id) => LedgerFault::Conflict(id@),
            LedgerError::BlankLine(n) => LedgerFault::BlankLine(*n),
            LedgerError::JournalBound => LedgerFault::JournalBound,
            LedgerError::CorruptLine(n, d) => LedgerFault::CorruptLine(*n, d@),
            LedgerError::DedupeBound => LedgerFault::DedupeBound,
            LedgerError::UnknownLane(l) => LedgerFault::UnknownLane(l@),
            LedgerError::Version => LedgerFault::Version,
            LedgerError::Registry(e) => LedgerFault::Registry(e@),
            LedgerError::CountExhausted => LedgerFault::CountExhausted,
        }
    }
}

impl LedgerFault {
    /// The fault of the file with this label, in words.
    pub open spec fn words(self, label: Seq<char>) -> Seq<char> {
        match self {
            LedgerFault::Snapshot(e) => "corrupt interaction ledger "@ + label + ": "@ + e,
            LedgerFault::InvalidId => "interaction ledger "@ + label
                + " contains an invalid interaction_id"@,
            LedgerFault::InvalidLane => "interaction ledger "@ + label
                + " contains invalid lane id"@,
            LedgerFault::UnsafeCount(n) => "interaction ledger "@ + label
                + " contains lane interaction count "@ + decimal(n as nat)
                + " outside the JSON-safe limit"@,
            LedgerFault::Conflict(id) => "corrupt interaction ledger "@ + label
                + ": interaction_id "@ + id + " has conflicting records"@,
            LedgerFault::BlankLine(n) => "corrupt interaction journal "@ + label
                + ": blank entry at line "@ + decimal(n as nat),
            LedgerFault::JournalBound => "interaction journal "@ + label
                + " exceeds its 128-entry compaction bound"@,
            LedgerFault::CorruptLine(n, d) => "corrupt interaction journal "@ + label
                + " at line "@ + decimal(n as nat) + ": "@ + d,
            LedgerFault::DedupeBound => "interaction ledger "@ + label
                + " exceeds its 10000-entry dedupe bound"@,
            LedgerFault::UnknownLane(l) => "interaction ledger "@ + label
                + " references unknown lane "@ + l,
            LedgerFault::Version => "interaction ledger "@ + label
                + " uses an unsupported format; telepathosd now requires version 2 (hard cutover)"@,
            LedgerFault::Registry(e) => "invalid lane registry during interaction recovery: "@ + e,
            LedgerFault::CountExhausted =>
                "interaction count would exceed the JSON-safe limit of 9007199254740991"@,
        }
    }
}

fn join3(a: &str, b: &str, c: &str) -> (r: String)
    ensures
        r@ == a@ + b@ + c@,
{
    let mut s = a.to_string();
    s.append(b);
    s.append(c);
    s
}

impl LedgerError {
    /// The fault of the file with this label, in words.
    pub fn message(&self, label: &str) -> (r: String)
        ensures
            r@ == self@.words(label@),
    {
        match self {
            LedgerError::Snapshot(e) => {
                let mut s = join3("corrupt interaction ledger ", label, ": ");
                s.append(e.as_str());
                s
            },
            LedgerError::InvalidId => join3(
                "interaction ledger ",
                label,
                " contains an invalid interaction_id",
            ),
            LedgerError::InvalidLane => join3(
                "interaction ledger ",
                label,
                " contains invalid lane id",
            ),
            LedgerError::UnsafeCount(n) => {
                let mut s = join3(
                    "interaction ledger ",
                    label,
                    " contains lane interaction count ",
                );
                let d = decimal_text(*n as u128);
                s.append(d.as_str());
                s.append(" outside the JSON-safe limit");
                s
            },
            LedgerError::Conflict(id) => {
                let mut s = join3("corrupt interaction ledger ", label, ": interaction_id ");
                s.append(id.as_str());
                s.append(" has conflicting records");
                s
            },
            LedgerError::BlankLine(n) => {
                let mut s = join3(
                    "corrupt interaction journal ",
                    label,
                    ": blank entry at line ",
                );
                let d = decimal_text(*n as u128);
                s.append(d.as_str());
                s
            },
            LedgerError::JournalBound => join3(
                "interaction journal ",
                label,
                " exceeds its 128-entry compaction bound",
            ),
            LedgerError::CorruptLine(n, detail) => {
                let mut s = join3("corrupt interaction journal ", label, " at line ");
                let d = decimal_text(*n as u128);
                s.append(d.as_str());
                s.append(": ");
                s.append(detail.as_str());
                s
            },
            LedgerError::DedupeBound => join3(
                "interaction ledger ",
                label,
                " exceeds its 10000-entry dedupe bound",
            ),
            LedgerError::UnknownLane(lane) => {
                let mut s = join3("interaction ledger ", label, " references unknown lane ");
                s.append(lane.as_str());
                s
            },
            LedgerError::Version => join3(
                "interaction ledger ",
                label,
                " uses an unsupported format; telepathosd now requires version 2 (hard cutover)",
            ),
            LedgerError::Registry(e) => {
                let mut s = "invalid lane registry during interaction recovery: ".to_string();
                s.append(e.as_str());
                s
            },
            LedgerError::CountExhausted =>
                "interaction count would exceed the JSON-safe limit of 9007199254740991".to_string(),
        }
    }
}

/// Whether a check came out like this.
pub open spec fn entry_checked(r: Result<(), LedgerError>, fault: Option<LedgerFault>) -> bool {
    match r {
        Ok(_) => fault is None,
        Err(e) => fault == Some(e@),
    }
}

/// Accepts only the present format of the snapshot.
pub fn check_ledger_version(version: Option<u64>) -> (r: Result<(), LedgerError>)
    ensures
        entry_checked(
            r,
            if version == Some(INTERACTION_LEDGER_VERSION as u64) {
                None
            } else {
                Some(LedgerFault::Version)
            },
        ),
{
    if version == Some(INTERACTION_LEDGER_VERSION as u64) {
        Ok(())
    } else {
        Err(LedgerError::Version)
    }
}

/// What is wrong with the text of a snapshot before its records are looked at.
pub open spec fn ledger_text_fault(text: Seq<char>) -> Option<LedgerFault> {
    match json_parsed(text) {
        Err(e) => Some(LedgerFault::Snapshot(e)),
        Ok(v) => if v.field("version"@).natural() == Some(INTERACTION_LEDGER_VERSION as u64) {
            None
        } else {
            Some(LedgerFault::Version)
        },
    }
}

/// Accepts only the text of a snapshot in the present format.
pub fn check_ledger_text(text: &str) -> (r: Result<(), LedgerError>)
    ensures
        entry_checked(r, ledger_text_fault(text@)),
{
    match parse_json(text) {
        Err(e) => Err(LedgerError::Snapshot(e)),
        Ok(v) => check_ledger_version(v.natural_field("version")),
    }
}

// ---- records --------------------------------------------------------------------

/// What is wrong with a record.
pub open spec fn entry_fault(e: EntryView) -> Option<LedgerFault> {
    if !valid_opaque_id(e.interaction_id) {
        Some(LedgerFault::InvalidId)
    } else if !valid_lane_id(e.lane_id) {
        Some(LedgerFault::InvalidLane)
    } else if e.lane_interactions > MAX_SAFE_SEQUENCE {
        Some(LedgerFault::UnsafeCount(e.lane_interactions))
    } else {
        None
    }
}

/// Checks a record.
pub fn validate_interaction_entry(entry: &InteractionEntry) -> (r: Result<(), LedgerError>)
    ensures
        entry_checked(r, entry_fault(entry@)),
{
    if !is_valid_opaque_id(entry.interaction_id.as_str()) {
        return Err(LedgerError::InvalidId);
    }
    if !is_valid_lane_id(entry.lane_id.as_str()) {
        return Err(LedgerError::InvalidLane);
    }
    if entry.lane_interactions > MAX_SAFE_SEQUENCE {
        return Err(LedgerError::UnsafeCount(entry.lane_interactions));
    }
    Ok(())
}

/// Index of the first record from `i` on with this identifier, the number of
/// records where there is none.
pub open spec fn entry_position(v: Seq<EntryView>, id: Seq<char>, i: int) -> int
    decreases v.len() - i,
{
    if i < 0 || i >= v.len() {
        v.len() as int
    } else if v[i].interaction_id == id {
        i
    } else {
        entry_position(v, id, i + 1)
    }
}

/// What the position of a record says.
pub proof fn lemma_entry_position(v: Seq<EntryView>, id: Seq<char>, i: int)
    requires
        0 <= i <= v.len(),
    ensures
        i <= entry_position(v, id, i) <= v.len(),
        entry_position(v, id, i) < v.len() ==> v[entry_position(v, id, i)].interaction_id == id,
        forall|k: int|
            i <= k < entry_position(v, id, i) ==> (#[trigger] v[k]).interaction_id != id,
    decreases v.len() - i,
{
    if i < v.len() {
        lemma_entry_position(v, id, i + 1);
    }
}

/// Index of the record with this identifier.
pub fn find_entry(entries: &Vec<InteractionEntry>, id: &str) -> (p: usize)
    ensures
        p == entry_position(entry_views(entries@), id@, 0),
        p <= entries@.len(),
{
    let ghost all = entry_views(entries@);
    let mut i: usize = 0;
    while i < entries.len()
        invariant
            all == entry_views(entries@),
            i <= entries@.len(),
            entry_position(all, id@, 0) == entry_position(all, id@, i as int),
        decreases entries@.len() - i,
    {
        assert(all[i as int] == entries@[i as int]@);
        if same_text(entries[i].interaction_id.as_str(), id) {
            return i;
        }
        i = i + 1;
    }
    i
}

fn same_entry(a: &InteractionEntry, b: &InteractionEntry) -> (r: bool)
    ensures
        r == (a@ == b@),
{
    let r = same_text(a.interaction_id.as_str(), b.interaction_id.as_str()) && same_text(
        a.lane_id.as_str(),
        b.lane_id.as_str(),
    ) && a.interaction_created_at_ms == b.interaction_created_at_ms && a.lane_interactions
        == b.lane_interactions;
    assert(r ==> a@ =~= b@);
    r
}

/// Why a record is not taken in.
pub open spec fn insert_fault(v: Seq<EntryView>, e: EntryView) -> Option<LedgerFault> {
    let p = entry_position(v, e.interaction_id, 0);
    if entry_fault(e) is Some {
        entry_fault(e)
    } else if p < v.len() && v[p] != e {
        Some(LedgerFault::Conflict(e.interaction_id))
    } else {
        None
    }
}

/// The records with one more; one that is there already is not added again.
pub open spec fn inserted(v: Seq<EntryView>, e: EntryView) -> Seq<EntryView> {
    if entry_position(v, e.interaction_id, 0) < v.len() {
        v
    } else {
        v.push(e)
    }
}

/// Takes in a record, unless it is there already. A different record under the
/// same identifier is refused.
pub fn insert_interaction_entry(entries: &mut Vec<InteractionEntry>, entry: InteractionEntry) -> (r:
    Result<(), LedgerError>)
    ensures
        entry_checked(r, insert_fault(entry_views(old(entries)@), entry@)),
        entry_views(final(entries)@) == (if r is Ok {
            inserted(entry_views(old(entries)@), entry@)
        } else {
            entry_views(old(entries)@)
        }),
{
    match validate_interaction_entry(&entry) {
        Err(e) => {
            return Err(e);
        },
        Ok(_) => {},
    }
    let p: usize = find_entry(entries, entry.interaction_id.as_str());
    let ghost all = entry_views(entries@);
    if p < entries.len() {
        assert(all[p as int] == entries@[p as int]@);
        if same_entry(&entries[p], &entry) {
            return Ok(());
        }
        return Err(LedgerError::Conflict(entry.interaction_id));
    }
    let ghost e = entry@;
    entries.push(entry);
    assert(entry_views(entries@) =~= all.push(e));
    Ok(())
}

/// Taking in a record keeps identifiers distinct, and a second time changes
/// nothing.
pub proof fn law_inserting_twice_is_inserting_once(v: Seq<EntryView>, e: EntryView)
    requires
        distinct_entries(v),
        insert_fault(v, e) is None,
    ensures
        distinct_entries(inserted(v, e)),
        insert_fault(inserted(v, e), e) is None,
        inserted(inserted(v, e), e) == inserted(v, e),
        inserted(v, e).contains(e),
{
    lemma_entry_position(v, e.interaction_id, 0);
    let p = entry_position(v, e.interaction_id, 0);
    let w = inserted(v, e);
    lemma_entry_position(w, e.interaction_id, 0);
    if p == v.len() {
        assert(w[v.len() as int] == e);
        let q = entry_position(w, e.interaction_id, 0);
        if q < v.len() {
            assert(w[q] == v[q]);
        }
    } else {
        assert(v[p] == e);
    }
}

// ---- the journal ----------------------------------------------------------------

/// A line of the journal, and the record it was decoded to or why it was not.
#[derive(Debug)]
pub struct JournalLine {
    pub text: String,
    pub decoded: Result<InteractionEntry, String>,
}

/// A line of the journal as a value.
pub struct JournalLineView {
    pub text: Seq<char>,
    pub decoded: Result<EntryView, Seq<char>>,
}

impl View for JournalLine {
    type V = JournalLineView;

    open spec fn view(&self) -> JournalLineView {
        JournalLineView {
            text: self.text@,
            decoded: match self.decoded {
                Ok(e) => Ok(e@),
                Err(d) => Err(d@),
            },
        }
    }
}

/// Why a line of the journal is not taken in.
pub open spec fn line_fault(ledger: LedgerView, line: JournalLineView, line_number: usize) ->
    Option<LedgerFault> {
    if blank(line.text) {
        Some(LedgerFault::BlankLine(line_number))
    } else if ledger.journal_entries >= MAX_INTERACTION_JOURNAL_ENTRIES {
        Some(LedgerFault::JournalBound)
    } else {
        match line.decoded {
            Err(d) => Some(LedgerFault::CorruptLine(line_number, d)),
            Ok(e) => insert_fault(ledger.entries, e),
        }
    }
}

/// The ledger after a line of the journal.
pub open spec fn folded(ledger: LedgerView, line: JournalLineView) -> LedgerView {
    LedgerView {
        entries: inserted(ledger.entries, line.decoded->Ok_0),
        journal_entries: (ledger.journal_entries + 1) as usize,
        ..ledger
    }
}

/// Takes a line of the journal into the ledger.
pub fn fold_journal_entry(ledger: InteractionLedger, line: JournalLine, line_number: usize) -> (r:
    Result<InteractionLedger, LedgerError>)
    ensures
        match r {
            Ok(l) => line_fault(ledger@, line@, line_number) is None && l@ == folded(
                ledger@,
                line@,
            ),
            Err(e) => line_fault(ledger@, line@, line_number) == Some(e@),
        },
{
    if is_blank(line.text.as_str()) {
        return Err(LedgerError::BlankLine(line_number));
    }
    if ledger.journal_entries >= MAX_INTERACTION_JOURNAL_ENTRIES {
        return Err(LedgerError::JournalBound);
    }
    let mut ledger = ledger;
    match line.decoded {
        Err(d) => Err(LedgerError::CorruptLine(line_number, d)),
        Ok(e) => {
            match insert_interaction_entry(&mut ledger.entries, e) {
                Err(e) => {
                    return Err(e);
                },
                Ok(_) => {},
            }
            ledger.journal_entries = ledger.journal_entries + 1;
            Ok(ledger)
        },
    }
}

/// The ledger after the first `n` lines of a journal, or what is wrong with the
/// first faulty one.
pub open spec fn folded_lines(
    start: LedgerView,
    lines: Seq<JournalLineView>,
    n: int,
) -> Result<LedgerView, LedgerFault>
    decreases n,
{
    if n <= 0 || n > lines.len() {
        Ok(start)
    } else {
        match folded_lines(start, lines, n - 1) {
            Err(e) => Err(e),
            Ok(l) => match line_fault(l, lines[n - 1], n as usize) {
                Some(e) => Err(e),
                None => Ok(folded(l, lines[n - 1])),
            },
        }
    }
}

/// A journal that is taken in whole is also taken in up to any line of it: a
/// crash leaves a ledger that is right for what was written, its journal count
/// is the number of lines, and it holds no record that the whole has not.
pub proof fn law_any_prefix_of_a_journal_is_right(
    start: LedgerView,
    lines: Seq<JournalLineView>,
    cut: int,
    n: int,
)
    requires
        0 <= cut <= n <= lines.len(),
        n <= MAX_INTERACTION_JOURNAL_ENTRIES,
        start.journal_entries == 0,
        folded_lines(start, lines, n) is Ok,
    ensures
        folded_lines(start, lines, cut) is Ok,
        folded_lines(start, lines, cut)->Ok_0.journal_entries == cut,
        folded_lines(start, lines, cut)->Ok_0.entries.len() <= folded_lines(
            start,
            lines,
            n,
        )->Ok_0.entries.len(),
        forall|i: int|
            0 <= i < folded_lines(start, lines, cut)->Ok_0.entries.len() ==> #[trigger] folded_lines(
                start,
                lines,
                cut,
            )->Ok_0.entries[i] == folded_lines(start, lines, n)->Ok_0.entries[i],
    decreases n,
{
    if cut < n {
        law_any_prefix_of_a_journal_is_right(start, lines, cut, n - 1);
    } else if n > 0 {
        law_any_prefix_of_a_journal_is_right(start, lines, n - 1, n - 1);
    }
}

// ---- counts ---------------------------------------------------------------------

/// The lanes after one record: its lane's count is raised to the record's.
pub open spec fn raised(lanes: Seq<LaneView>, e: EntryView) -> Seq<LaneView> {
    let p = position(lanes, e.lane_id);
    if p < lanes.len() && e.lane_interactions > count_of(lanes[p]) {
        lanes.update(p, LaneView { interactions: Some(e.lane_interactions), ..lanes[p] })
    } else {
        lanes
    }
}

/// A lane's count, zero where it has none.
pub open spec fn count_of(lane: LaneView) -> u64 {
    match lane.interactions {
        Some(n) => n,
        None => 0,
    }
}

/// The larger of two counts.
pub open spec fn larger(a: u64, b: u64) -> u64 {
    if a >= b {
        a
    } else {
        b
    }
}

/// Whether a record raises its lane's count.
pub open spec fn raises(lanes: Seq<LaneView>, e: EntryView) -> bool {
    let p = position(lanes, e.lane_id);
    p < lanes.len() && e.lane_interactions > count_of(lanes[p])
}

/// The lanes after the first `n` records.
pub open spec fn reconciled(lanes: Seq<LaneView>, v: Seq<EntryView>, n: int) -> Seq<LaneView>
    decreases n,
{
    if n <= 0 || n > v.len() {
        lanes
    } else {
        raised(reconciled(lanes, v, n - 1), v[n - 1])
    }
}

/// Whether one of the first `n` records raised a count.
pub open spec fn any_raised(lanes: Seq<LaneView>, v: Seq<EntryView>, n: int) -> bool
    decreases n,
{
    if n <= 0 || n > v.len() {
        false
    } else {
        any_raised(lanes, v, n - 1) || raises(reconciled(lanes, v, n - 1), v[n - 1])
    }
}

/// Raises each lane's count to the highest that the records give it. Says
/// whether a count was raised.
pub fn reconcile_lane_interactions(lanes: &mut Vec<Lane>, entries: &Vec<InteractionEntry>) -> (r:
    bool)
    ensures
        lane_views(final(lanes)@) == reconciled(
            lane_views(old(lanes)@),
            entry_views(entries@),
            entries@.len() as int,
        ),
        r == any_raised(lane_views(old(lanes)@), entry_views(entries@), entries@.len() as int),
{
    let ghost start = lane_views(lanes@);
    let ghost v = entry_views(entries@);
    let mut any: bool = false;
    for i in 0..entries.len()
        invariant
            v == entry_views(entries@),
            lane_views(lanes@) == reconciled(start, v, i as int),
            any == any_raised(start, v, i as int),
    {
        let e = &entries[i];
        assert(e@ == v[i as int]);
        let ghost before = lane_views(lanes@);
        let p: usize = find_lane(lanes, e.lane_id.as_str());
        if p < lanes.len() {
            assert(before[p as int] == lanes@[p as int]@);
            let current: u64 = match lanes[p].interactions {
                Some(n) => n,
                None => 0,
            };
            if e.lane_interactions > current {
                lanes[p].interactions = Some(e.lane_interactions);
                any = true;
                assert(lane_views(lanes@) =~= raised(before, e@));
            }
        }
    }
    any
}

proof fn lemma_raised(lanes: Seq<LaneView>, e: EntryView)
    ensures
        raised(lanes, e).len() == lanes.len(),
        forall|i: int|
            0 <= i < lanes.len() ==> (#[trigger] raised(lanes, e)[i]).id == lanes[i].id && count_of(
                raised(lanes, e)[i],
            ) >= count_of(lanes[i]),
        forall|id: Seq<char>| #[trigger] position(raised(lanes, e), id) == position(lanes, id),
        !raises(lanes, e) ==> raised(lanes, e) == lanes,
{
    lemma_position(lanes, e.lane_id);
    let w = raised(lanes, e);
    assert forall|id: Seq<char>| #[trigger] position(w, id) == position(lanes, id) by {
        lemma_same_ids(lanes, w, id);
    }
}

proof fn lemma_same_ids(a: Seq<LaneView>, b: Seq<LaneView>, id: Seq<char>)
    requires
        a.len() == b.len(),
        forall|i: int| 0 <= i < a.len() ==> (#[trigger] a[i]).id == b[i].id,
    ensures
        position(a, id) == position(b, id),
    decreases a.len(),
{
    if a.len() > 0 {
        assert(a[0].id == b[0].id);
        let x = a.drop_first();
        let y = b.drop_first();
        assert forall|i: int| 0 <= i < x.len() implies (#[trigger] x[i]).id == y[i].id by {
            assert(a[i + 1].id == b[i + 1].id);
        }
        lemma_same_ids(x, y, id);
    }
}

proof fn lemma_reconciled(lanes: Seq<LaneView>, v: Seq<EntryView>, n: int)
    requires
        0 <= n <= v.len(),
    ensures
        reconciled(lanes, v, n).len() == lanes.len(),
        forall|i: int|
            0 <= i < lanes.len() ==> (#[trigger] reconciled(lanes, v, n)[i]).id == lanes[i].id
                && count_of(reconciled(lanes, v, n)[i]) >= count_of(lanes[i]),
        forall|id: Seq<char>| #[trigger]
            position(reconciled(lanes, v, n), id) == position(lanes, id),
        forall|k: int|
            0 <= k < n && position(lanes, v[k].lane_id) < lanes.len() ==> count_of(
                reconciled(lanes, v, n)[position(lanes, (#[trigger] v[k]).lane_id)],
            ) >= v[k].lane_interactions,
        !any_raised(lanes, v, n) ==> reconciled(lanes, v, n) == lanes,
        forall|i: int|
            0 <= i < lanes.len() && position(lanes, lanes[i].id) == i ==> count_of(
                #[trigger] reconciled(lanes, v, n)[i],
            ) == larger(count_of(lanes[i]), journaled_count(v, lanes[i].id, None, n)),
    decreases n,
{
    if n > 0 {
        lemma_reconciled(lanes, v, n - 1);
        let b = reconciled(lanes, v, n - 1);
        lemma_raised(b, v[n - 1]);
        let w = reconciled(lanes, v, n);
        assert forall|i: int| 0 <= i < lanes.len() implies (#[trigger] w[i]).id == lanes[i].id
            && count_of(w[i]) >= count_of(lanes[i]) by {
            assert(b[i].id == lanes[i].id);
            assert(raised(b, v[n - 1])[i].id == b[i].id);
        }
        assert forall|id: Seq<char>| #[trigger] position(w, id) == position(lanes, id) by {
            assert(position(raised(b, v[n - 1]), id) == position(b, id));
            assert(position(b, id) == position(lanes, id));
        }
        assert forall|k: int|
            0 <= k < n && position(lanes, v[k].lane_id) < lanes.len() implies count_of(
            w[position(lanes, (#[trigger] v[k]).lane_id)],
        ) >= v[k].lane_interactions by {
            let p = position(lanes, v[k].lane_id);
            lemma_position(lanes, v[k].lane_id);
            assert(count_of(raised(b, v[n - 1])[p]) >= count_of(b[p]));
            if k == n - 1 {
                assert(position(b, v[k].lane_id) == p);
            }
        }
        assert forall|i: int|
            0 <= i < lanes.len() && position(lanes, lanes[i].id) == i implies count_of(
            #[trigger] w[i],
        ) == larger(count_of(lanes[i]), journaled_count(v, lanes[i].id, None, n)) by {
            let e = v[n - 1];
            lemma_position(lanes, e.lane_id);
            assert(position(b, e.lane_id) == position(lanes, e.lane_id));
            assert(count_of(b[i]) == larger(
                count_of(lanes[i]),
                journaled_count(v, lanes[i].id, None, n - 1),
            ));
            if e.lane_id == lanes[i].id {
                assert(position(b, e.lane_id) == i);
            }
        }
    }
}

/// Reconciling gives a lane the larger of its own count and the highest of its
/// records, so that it raises none above the records and lowers none, and no
/// lane is below a record of its own afterwards; a second time changes nothing
/// and says so. Of lanes that share an identifier only the first is counted.
pub proof fn law_reconciling_twice_is_reconciling_once(lanes: Seq<LaneView>, v: Seq<EntryView>)
    ensures
        ({
            let w = reconciled(lanes, v, v.len() as int);
            &&& w.len() == lanes.len()
            &&& forall|i: int|
                0 <= i < lanes.len() ==> (#[trigger] w[i]).id == lanes[i].id && count_of(w[i])
                    >= count_of(lanes[i])
            &&& forall|k: int|
                0 <= k < v.len() && position(lanes, v[k].lane_id) < lanes.len() ==> count_of(
                    w[position(lanes, (#[trigger] v[k]).lane_id)],
                ) >= v[k].lane_interactions
            &&& forall|i: int|
                0 <= i < lanes.len() && position(lanes, lanes[i].id) == i ==> count_of(
                    #[trigger] w[i],
                ) == larger(
                    count_of(lanes[i]),
                    journaled_count(v, lanes[i].id, None, v.len() as int),
                )
            &&& !any_raised(w, v, v.len() as int)
            &&& reconciled(w, v, v.len() as int) == w
        }),
{
    let w = reconciled(lanes, v, v.len() as int);
    lemma_reconciled(lanes, v, v.len() as int);
    lemma_nothing_left(lanes, w, v, v.len() as int);
    lemma_reconciled(w, v, v.len() as int);
}

proof fn lemma_nothing_left(
    lanes: Seq<LaneView>,
    w: Seq<LaneView>,
    v: Seq<EntryView>,
    n: int,
)
    requires
        0 <= n <= v.len(),
        w == reconciled(lanes, v, v.len() as int),
    ensures
        !any_raised(w, v, n),
        reconciled(w, v, n) == w,
    decreases n,
{
    if n > 0 {
        lemma_nothing_left(lanes, w, v, n - 1);
        lemma_reconciled(lanes, v, v.len() as int);
        let e = v[n - 1];
        assert(position(w, e.lane_id) == position(lanes, e.lane_id));
    }
}

/// A lane's count in a registry, zero where there is no such lane.
pub open spec fn registry_count(reg: RegistryView, lane_id: Seq<char>) -> u64 {
    let p = position(reg.lanes, lane_id);
    if p < reg.lanes.len() {
        count_of(reg.lanes[p])
    } else {
        0
    }
}

/// A lane's count in a registry.
pub fn lane_interaction_count(registry: &LaneRegistry, lane_id: &str) -> (n: u64)
    ensures
        n == registry_count(registry@, lane_id@),
{
    let p: usize = find_lane(&registry.lanes, lane_id);
    if p < registry.lanes.len() {
        assert(registry@.lanes[p as int] == registry.lanes@[p as int]@);
        match registry.lanes[p].interactions {
            Some(n) => n,
            None => 0,
        }
    } else {
        0
    }
}

/// The highest count that the first `n` records give a lane, zero where none
/// does. Records older than `oldest` do not count, where it is given.
pub open spec fn journaled_count(
    v: Seq<EntryView>,
    lane_id: Seq<char>,
    oldest: Option<u64>,
    n: int,
) -> u64
    decreases n,
{
    if n <= 0 || n > v.len() {
        0
    } else {
        let before = journaled_count(v, lane_id, oldest, n - 1);
        let e = v[n - 1];
        if e.lane_id == lane_id && (oldest is Some ==> e.interaction_created_at_ms >= oldest->0)
            && e.lane_interactions > before {
            e.lane_interactions
        } else {
            before
        }
    }
}

/// The highest count that the records give a lane.
pub fn max_journaled_interaction_count(
    ledger: &InteractionLedger,
    lane_id: &str,
    oldest: Option<u64>,
) -> (n: u64)
    ensures
        n == journaled_count(ledger@.entries, lane_id@, oldest, ledger@.entries.len() as int),
{
    let ghost v = ledger@.entries;
    let mut m: u64 = 0;
    for i in 0..ledger.entries.len()
        invariant
            v == ledger@.entries,
            m == journaled_count(v, lane_id@, oldest, i as int),
    {
        let e = &ledger.entries[i];
        assert(e@ == v[i as int]);
        let recent = match oldest {
            Some(o) => e.interaction_created_at_ms >= o,
            None => true,
        };
        if same_text(e.lane_id.as_str(), lane_id) && recent && e.lane_interactions > m {
            m = e.lane_interactions;
        }
    }
    m
}

/// The count after one more turn: one above both, unless that leaves the exact
/// integer range.
pub open spec fn next_count(registry_count: u64, journaled: u64) -> Option<u64> {
    let m = larger(registry_count, journaled);
    if m < MAX_SAFE_SEQUENCE {
        Some((m + 1) as u64)
    } else {
        None
    }
}

/// The count after one more turn.
pub fn next_interaction_count(registry_count: u64, journaled_count: u64) -> (r: Result<
    u64,
    LedgerError,
>)
    ensures
        match r {
            Ok(n) => next_count(registry_count, journaled_count) == Some(n),
            Err(e) => next_count(registry_count, journaled_count) is None && e@
                == LedgerFault::CountExhausted,
        },
{
    let m: u64 = if registry_count >= journaled_count {
        registry_count
    } else {
        journaled_count
    };
    if m < MAX_SAFE_SEQUENCE {
        Ok(m + 1)
    } else {
        Err(LedgerError::CountExhausted)
    }
}

// ---- the window -----------------------------------------------------------------

/// Selects the records that are not older than `oldest`.
pub open spec fn recent_entries(oldest: u64) -> spec_fn(EntryView) -> bool {
    |e: EntryView| e.interaction_created_at_ms >= oldest
}

/// The ledger without the records older than `oldest`.
pub open spec fn pruned(l: LedgerView, oldest: u64) -> LedgerView {
    LedgerView { entries: l.entries.filter(recent_entries(oldest)), ..l }
}

/// Whether a record is older than `oldest`.
pub open spec fn any_old(v: Seq<EntryView>, oldest: u64) -> bool {
    exists|i: int| 0 <= i < v.len() && (#[trigger] v[i]).interaction_created_at_ms < oldest
}

impl InteractionLedger {
    /// Checks every record.
    pub fn validate(&self) -> (r: Result<(), LedgerError>)
        ensures
            entry_checked(r, first_entry_fault(self@.entries, 0)),
    {
        let ghost v = self@.entries;
        for i in 0..self.entries.len()
            invariant
                v == self@.entries,
                first_entry_fault(v, 0) == first_entry_fault(v, i as int),
        {
            assert(v[i as int] == self.entries@[i as int]@);
            match validate_interaction_entry(&self.entries[i]) {
                Err(e) => {
                    return Err(e);
                },
                Ok(_) => {},
            }
        }
        Ok(())
    }

    /// Gives up the records older than `oldest`. Says whether there were any.
    pub fn prune_expired(&mut self, oldest: u64) -> (r: bool)
        ensures
            final(self)@ == pruned(old(self)@, oldest),
            r == any_old(old(self)@.entries, oldest),
    {
        let ghost v = self@.entries;
        let ghost p = recent_entries(oldest);
        let mut kept: Vec<InteractionEntry> = Vec::new();
        let mut any: bool = false;
        proof {
            reveal(Seq::filter);
            assert(entry_views(kept@) =~= v.take(0).filter(p));
        }
        for i in 0..self.entries.len()
            invariant
                self@ == old(self)@,
                v == self@.entries,
                p == recent_entries(oldest),
                entry_views(kept@) == v.take(i as int).filter(p),
                any == (exists|k: int|
                    0 <= k < i && (#[trigger] v[k]).interaction_created_at_ms < oldest),
        {
            let e = &self.entries[i];
            proof {
                assert(e@ == v[i as int]);
                lemma_filter_push(v, p, i as int);
            }
            if e.interaction_created_at_ms >= oldest {
                let ghost before = kept@;
                kept.push(e.clone());
                assert(entry_views(kept@) =~= entry_views(before).push(e@));
            } else {
                any = true;
                assert(v[i as int].interaction_created_at_ms < oldest);
            }
        }
        assert(v.take(v.len() as int) =~= v);
        self.entries = kept;
        assert(self@ =~= pruned(old(self)@, oldest));
        any
    }
}

/// What is wrong with the first faulty record from `i` on.
pub open spec fn first_entry_fault(v: Seq<EntryView>, i: int) -> Option<LedgerFault>
    decreases v.len() - i,
{
    if i < 0 || i >= v.len() {
        None
    } else if entry_fault(v[i]) is Some {
        entry_fault(v[i])
    } else {
        first_entry_fault(v, i + 1)
    }
}

// ---- recovery -------------------------------------------------------------------

/// The records after the first `n` of a snapshot, or what is wrong with the
/// first faulty one.
pub open spec fn inserted_all(v: Seq<EntryView>, n: int) -> Result<Seq<EntryView>, LedgerFault>
    decreases n,
{
    if n <= 0 || n > v.len() {
        Ok(Seq::empty())
    } else {
        match inserted_all(v, n - 1) {
            Err(e) => Err(e),
            Ok(w) => match insert_fault(w, v[n - 1]) {
                Some(e) => Err(e),
                None => Ok(inserted(w, v[n - 1])),
            },
        }
    }
}

/// The start of the window at `now`.
pub open spec fn window_start(now: u64) -> u64 {
    if now < INTERACTION_DEDUPE_WINDOW_MS {
        0
    } else {
        (now - INTERACTION_DEDUPE_WINDOW_MS) as u64
    }
}

/// The lane of the first record from `i` on that the registry does not know.
pub open spec fn first_unknown(v: Seq<EntryView>, lanes: Seq<LaneView>, i: int) -> Option<Seq<char>>
    decreases v.len() - i,
{
    if i < 0 || i >= v.len() {
        None
    } else if !has_lane(lanes, v[i].lane_id) {
        Some(v[i].lane_id)
    } else {
        first_unknown(v, lanes, i + 1)
    }
}

/// Why a ledger is not recovered, told apart by the file at fault.
#[derive(Debug)]
pub enum RecoveryError {
    Ledger(LedgerError),
    Journal(LedgerError),
}

/// Why a ledger is not recovered, as a value.
pub enum RecoveryFault {
    Ledger(LedgerFault),
    Journal(LedgerFault),
}

impl View for RecoveryError {
    type V = RecoveryFault;

    open spec fn view(&self) -> RecoveryFault {
        match self {
            RecoveryError::Ledger(e) => RecoveryFault::Ledger(e@),
            RecoveryError::Journal(e) => RecoveryFault::Journal(e@),
        }
    }
}

impl RecoveryFault {
    /// The fault in words, with the label of the file it is in.
    pub open spec fn words(self, ledger: Seq<char>, journal: Seq<char>) -> Seq<char> {
        match self {
            RecoveryFault::Ledger(e) => e.words(ledger),
            RecoveryFault::Journal(e) => e.words(journal),
        }
    }
}

impl RecoveryError {
    /// The fault in words, with the label of the file it is in.
    pub fn message(&self, ledger: &str, journal: &str) -> (r: String)
        ensures
            r@ == self@.words(ledger@, journal@),
    {
        match self {
            RecoveryError::Ledger(e) => e.message(ledger),
            RecoveryError::Journal(e) => e.message(journal),
        }
    }
}

/// The ledger that a snapshot and a journal stand for at `now`: records out of
/// the window are given up, which the files do not know yet.
pub open spec fn recovered(
    snapshot: Seq<EntryView>,
    lines: Seq<JournalLineView>,
    lanes: Seq<LaneView>,
    now: u64,
) -> Result<LedgerView, RecoveryFault> {
    match inserted_all(snapshot, snapshot.len() as int) {
        Err(e) => Err(RecoveryFault::Ledger(e)),
        Ok(entries) => match folded_lines(
            LedgerView { entries, ..empty_ledger() },
            lines,
            lines.len() as int,
        ) {
            Err(e) => Err(RecoveryFault::Journal(e)),
            Ok(l) => {
                let w = pruned(l, window_start(now));
                if w.entries.len() > MAX_INTERACTION_DEDUPE_ENTRIES {
                    Err(RecoveryFault::Ledger(LedgerFault::DedupeBound))
                } else if first_unknown(w.entries, lanes, 0) is Some {
                    Err(
                        RecoveryFault::Ledger(
                            LedgerFault::UnknownLane(first_unknown(w.entries, lanes, 0)->0),
                        ),
                    )
                } else {
                    Ok(
                        LedgerView {
                            needs_durable_compaction: any_old(l.entries, window_start(now)),
                            ..w
                        },
                    )
                }
            },
        },
    }
}

/// The registry with its counts made good from the records.
pub open spec fn made_good(reg: RegistryView, v: Seq<EntryView>) -> RegistryView {
    RegistryView { lanes: reconciled(reg.lanes, v, v.len() as int), ..reg }
}

/// The values of a run of journal lines.
pub open spec fn line_views(v: Seq<JournalLine>) -> Seq<JournalLineView> {
    Seq::new(v.len(), |i: int| v[i]@)
}

fn insert_all(snapshot: Vec<InteractionEntry>) -> (r: Result<Vec<InteractionEntry>, LedgerError>)
    ensures
        match r {
            Ok(v) => inserted_all(entry_views(snapshot@), snapshot@.len() as int) == Ok::<
                Seq<EntryView>,
                LedgerFault,
            >(entry_views(v@)),
            Err(e) => inserted_all(entry_views(snapshot@), snapshot@.len() as int) == Err::<
                Seq<EntryView>,
                LedgerFault,
            >(e@),
        },
{
    let ghost v = entry_views(snapshot@);
    let mut out: Vec<InteractionEntry> = Vec::new();
    assert(entry_views(out@) =~= Seq::empty());
    for i in 0..snapshot.len()
        invariant
            v == entry_views(snapshot@),
            inserted_all(v, i as int) == Ok::<Seq<EntryView>, LedgerFault>(entry_views(out@)),
    {
        assert(v[i as int] == snapshot@[i as int]@);
        let e = snapshot[i].clone();
        match insert_interaction_entry(&mut out, e) {
            Err(e) => {
                proof {
                    lemma_insert_fails(v, i + 1, v.len() as int, e@);
                }
                return Err(e);
            },
            Ok(_) => {},
        }
    }
    Ok(out)
}

proof fn lemma_insert_fails(v: Seq<EntryView>, i: int, n: int, e: LedgerFault)
    requires
        0 <= i <= n <= v.len(),
        inserted_all(v, i) == Err::<Seq<EntryView>, LedgerFault>(e),
    ensures
        inserted_all(v, n) == Err::<Seq<EntryView>, LedgerFault>(e),
    decreases n,
{
    if i < n {
        lemma_insert_fails(v, i, n - 1, e);
    }
}

proof fn lemma_fold_fails(
    start: LedgerView,
    lines: Seq<JournalLineView>,
    i: int,
    n: int,
    e: LedgerFault,
)
    requires
        0 <= i <= n <= lines.len(),
        folded_lines(start, lines, i) == Err::<LedgerView, LedgerFault>(e),
    ensures
        folded_lines(start, lines, n) == Err::<LedgerView, LedgerFault>(e),
    decreases n,
{
    if i < n {
        lemma_fold_fails(start, lines, i, n - 1, e);
    }
}

fn fold_lines(start: InteractionLedger, lines: Vec<JournalLine>) -> (r: Result<
    InteractionLedger,
    LedgerError,
>)
    ensures
        match r {
            Ok(l) => folded_lines(start@, line_views(lines@), lines@.len() as int) == Ok::<
                LedgerView,
                LedgerFault,
            >(l@),
            Err(e) => folded_lines(start@, line_views(lines@), lines@.len() as int) == Err::<
                LedgerView,
                LedgerFault,
            >(e@),
        },
{
    let ghost all = line_views(lines@);
    let ghost first = start@;
    let mut ledger = start;
    let mut rest = lines;
    let total: usize = rest.len();
    let mut n: usize = 0;
    while rest.len() > 0
        invariant
            first == start@,
            all == line_views(lines@),
            total == all.len(),
            n + rest@.len() == all.len(),
            forall|k: int| 0 <= k < rest@.len() ==> (#[trigger] rest@[k])@ == all[n + k],
            folded_lines(first, all, n as int) == Ok::<LedgerView, LedgerFault>(ledger@),
        decreases rest@.len(),
    {
        let ghost before = rest@;
        let line = rest.remove(0);
        assert(before[0]@ == all[n as int]);
        assert forall|k: int| 0 <= k < rest@.len() implies (#[trigger] rest@[k])@ == all[n + 1
            + k] by {
            assert(rest@[k] == before[k + 1]);
        }
        match fold_journal_entry(ledger, line, n + 1) {
            Ok(l) => {
                ledger = l;
            },
            Err(e) => {
                proof {
                    lemma_fold_fails(first, all, n + 1, all.len() as int, e@);
                }
                return Err(e);
            },
        }
        n = n + 1;
    }
    Ok(ledger)
}

fn find_unknown(entries: &Vec<InteractionEntry>, registry: &LaneRegistry) -> (r: Option<String>)
    ensures
        crate::text::opt_view(r) == first_unknown(entry_views(entries@), registry@.lanes, 0),
{
    let ghost v = entry_views(entries@);
    for i in 0..entries.len()
        invariant
            v == entry_views(entries@),
            first_unknown(v, registry@.lanes, 0) == first_unknown(v, registry@.lanes, i as int),
    {
        assert(v[i as int] == entries@[i as int]@);
        if !registry.knows(entries[i].lane_id.as_str()) {
            return Some(entries[i].lane_id.clone());
        }
    }
    None
}

/// Recovers the ledger at `now` from its snapshot and its journal, and makes
/// the registry's counts good. Says whether a count was raised and so has to be
/// saved. Nothing of the registry changes where anything is wrong.
pub fn load_interaction_ledger(
    registry: &mut LaneRegistry,
    snapshot: Vec<InteractionEntry>,
    journal: Vec<JournalLine>,
    now: u64,
) -> (r: Result<(InteractionLedger, bool), RecoveryError>)
    ensures
        ({
            let fault = crate::lanes::registry_fault(old(registry)@);
            let rec = recovered(
                entry_views(snapshot@),
                line_views(journal@),
                old(registry)@.lanes,
                now,
            );
            match r {
                Ok((ledger, raised)) => {
                    &&& fault is None
                    &&& rec == Ok::<LedgerView, RecoveryFault>(ledger@)
                    &&& final(registry)@ == made_good(old(registry)@, ledger@.entries)
                    &&& raised == any_raised(
                        old(registry)@.lanes,
                        ledger@.entries,
                        ledger@.entries.len() as int,
                    )
                },
                Err(e) => {
                    &&& final(registry)@ == old(registry)@
                    &&& if fault is Some {
                        e@ == RecoveryFault::Ledger(
                            LedgerFault::Registry(crate::lanes::fault_words(fault->0)),
                        )
                    } else {
                        rec == Err::<LedgerView, RecoveryFault>(e@)
                    }
                },
            }
        }),
{
    match registry.validate() {
        Err(e) => {
            return Err(RecoveryError::Ledger(LedgerError::Registry(e)));
        },
        Ok(_) => {},
    }
    let entries = match insert_all(snapshot) {
        Ok(v) => v,
        Err(e) => {
            return Err(RecoveryError::Ledger(e));
        },
    };
    let start = InteractionLedger { entries, journal_entries: 0, needs_durable_compaction: false };
    let mut ledger = match fold_lines(start, journal) {
        Ok(l) => l,
        Err(e) => {
            return Err(RecoveryError::Journal(e));
        },
    };
    let oldest: u64 = now.saturating_sub(INTERACTION_DEDUPE_WINDOW_MS);
    proof {
        lemma_flag(
            LedgerView { entries: start@.entries, ..empty_ledger() },
            line_views(journal@),
            journal@.len() as int,
        );
    }
    if ledger.prune_expired(oldest) {
        ledger.needs_durable_compaction = true;
    }
    assert(entry_views(ledger.entries@).len() == ledger.entries@.len());
    if ledger.entries.len() > MAX_INTERACTION_DEDUPE_ENTRIES {
        return Err(RecoveryError::Ledger(LedgerError::DedupeBound));
    }
    match find_unknown(&ledger.entries, registry) {
        Some(lane) => {
            return Err(RecoveryError::Ledger(LedgerError::UnknownLane(lane)));
        },
        None => {},
    }
    let raised = reconcile_lane_interactions(&mut registry.lanes, &ledger.entries);
    assert(registry@ =~= made_good(old(registry)@, ledger@.entries));
    Ok((ledger, raised))
}

/// Folding a journal leaves the compaction flag alone.
proof fn lemma_flag(start: LedgerView, lines: Seq<JournalLineView>, n: int)
    requires
        0 <= n <= lines.len(),
    ensures
        folded_lines(start, lines, n) is Ok ==> folded_lines(
            start,
            lines,
            n,
        )->Ok_0.needs_durable_compaction == start.needs_durable_compaction,
    decreases n,
{
    if n > 0 {
        lemma_flag(start, lines, n - 1);
    }
}

/// The window reaches back seven days.
pub proof fn law_window_is_seven_days(now: u64)
    ensures
        now >= 604_800_000 ==> window_start(now) == now - 604_800_000,
        now < 604_800_000 ==> window_start(now) == 0,
{
}

proof fn lemma_inserted_all(v: Seq<EntryView>, n: int, e: EntryView)
    requires
        0 <= n <= v.len(),
        inserted_all(v, n) is Ok,
    ensures
        inserted_all(v, n)->Ok_0.contains(e) <==> v.take(n).contains(e),
    decreases n,
{
    if n > 0 {
        lemma_inserted_all(v, n - 1, e);
        let w = inserted_all(v, n - 1)->Ok_0;
        lemma_inserted(w, v[n - 1], e);
        lemma_take_contains(v, n, e);
    } else {
        assert(v.take(0).len() == 0);
    }
}

proof fn lemma_take_contains(v: Seq<EntryView>, n: int, e: EntryView)
    requires
        0 < n <= v.len(),
    ensures
        v.take(n).contains(e) <==> v.take(n - 1).contains(e) || v[n - 1] == e,
{
    if v.take(n).contains(e) {
        let k = choose|k: int| 0 <= k < n && v.take(n)[k] == e;
        if k < n - 1 {
            assert(v.take(n - 1)[k] == e);
        }
    }
    if v.take(n - 1).contains(e) {
        let u = v.take(n - 1);
        let k = choose|k: int| 0 <= k < u.len() && u[k] == e;
        assert(v.take(n)[k] == e);
    }
    if v[n - 1] == e {
        assert(v.take(n)[n - 1] == e);
    }
}

/// A record that is taken in is there, and so is what was there before; nothing
/// else is.
proof fn lemma_inserted(w: Seq<EntryView>, x: EntryView, e: EntryView)
    requires
        insert_fault(w, x) is None,
    ensures
        inserted(w, x).contains(e) <==> w.contains(e) || x == e,
{
    lemma_entry_position(w, x.interaction_id, 0);
    let p = entry_position(w, x.interaction_id, 0);
    if p < w.len() {
        assert(w[p] == x);
        assert(w.contains(x));
    } else {
        let u = w.push(x);
        assert(u[w.len() as int] == x);
        if w.contains(e) {
            let k = choose|k: int| 0 <= k < w.len() && w[k] == e;
            assert(u[k] == e);
        }
        if u.contains(e) {
            let k = choose|k: int| 0 <= k < u.len() && u[k] == e;
            if k < w.len() {
                assert(w[k] == e);
            }
        }
    }
}

/// Whether one of the first `n` lines of a journal is this record.
pub open spec fn is_journaled(lines: Seq<JournalLineView>, n: int, e: EntryView) -> bool {
    exists|k: int|
        0 <= k < n && (#[trigger] lines[k]).decoded == Ok::<EntryView, Seq<char>>(e)
}

proof fn lemma_folded_lines(start: LedgerView, lines: Seq<JournalLineView>, n: int, e: EntryView)
    requires
        0 <= n <= lines.len(),
        folded_lines(start, lines, n) is Ok,
    ensures
        folded_lines(start, lines, n)->Ok_0.entries.contains(e) <==> start.entries.contains(e)
            || is_journaled(lines, n, e),
    decreases n,
{
    if n > 0 {
        lemma_folded_lines(start, lines, n - 1, e);
        let l = folded_lines(start, lines, n - 1)->Ok_0;
        let x = lines[n - 1].decoded->Ok_0;
        assert(line_fault(l, lines[n - 1], n as usize) is None);
        lemma_inserted(l.entries, x, e);
        if is_journaled(lines, n - 1, e) {
            let k = choose|k: int|
                0 <= k < n - 1 && (#[trigger] lines[k]).decoded == Ok::<EntryView, Seq<char>>(e);
            assert(lines[k].decoded == Ok::<EntryView, Seq<char>>(e));
        }
        if is_journaled(lines, n, e) && !is_journaled(lines, n - 1, e) {
            let k = choose|k: int|
                0 <= k < n && (#[trigger] lines[k]).decoded == Ok::<EntryView, Seq<char>>(e);
            assert(k == n - 1);
        }
        if x == e {
            assert(lines[n - 1].decoded == Ok::<EntryView, Seq<char>>(e));
        }
    }
}

/// What is recovered is exactly what the snapshot and the journal hold of the last
/// seven days.
pub proof fn law_recovery_keeps_every_recent_record(
    snapshot: Seq<EntryView>,
    lines: Seq<JournalLineView>,
    lanes: Seq<LaneView>,
    now: u64,
    e: EntryView,
)
    requires
        recovered(snapshot, lines, lanes, now) is Ok,
    ensures
        recovered(snapshot, lines, lanes, now)->Ok_0.entries.contains(e) <==> {
            &&& snapshot.contains(e) || is_journaled(lines, lines.len() as int, e)
            &&& e.interaction_created_at_ms + 604_800_000 >= now
        },
{
    let all = inserted_all(snapshot, snapshot.len() as int)->Ok_0;
    lemma_inserted_all(snapshot, snapshot.len() as int, e);
    assert(snapshot.take(snapshot.len() as int) =~= snapshot);
    let start = LedgerView { entries: all, ..empty_ledger() };
    lemma_folded_lines(start, lines, lines.len() as int, e);
    let l = folded_lines(start, lines, lines.len() as int)->Ok_0;
    crate::relay::outcomes::lemma_filter_holds(l.entries, recent_entries(window_start(now)));
}

/// A turn is taken into the ledger exactly when its names are sound, its count is a
/// safe number, and no other turn of its name is there.
pub proof fn law_turn_is_taken_when_sound(v: Seq<EntryView>, e: EntryView)
    requires
        distinct_entries(v),
    ensures
        insert_fault(v, e) is None <==> {
            &&& valid_opaque_id(e.interaction_id)
            &&& valid_lane_id(e.lane_id)
            &&& e.lane_interactions <= 9_007_199_254_740_991
            &&& forall|i: int|
                0 <= i < v.len() && (#[trigger] v[i]).interaction_id == e.interaction_id ==> v[i]
                    == e
        },
{
    lemma_entry_position(v, e.interaction_id, 0);
    let p = entry_position(v, e.interaction_id, 0);
    if p < v.len() {
        assert(v[p].interaction_id == e.interaction_id);
        assert forall|i: int|
            0 <= i < v.len() && (#[trigger] v[i]).interaction_id == e.interaction_id implies i
            == p by {
            if i < p {
                assert(v[i].interaction_id != v[p].interaction_id);
            }
            if p < i {
                assert(v[p].interaction_id != v[i].interaction_id);
            }
        }
    }
}

/// A line of the journal is taken exactly when it is not blank, the journal has
/// room for it, it can be read, and its turn can be taken.
pub proof fn law_line_is_taken_when_sound(l: LedgerView, line: JournalLineView, n: usize)
    ensures
        line_fault(l, line, n) is None <==> {
            &&& !blank(line.text)
            &&& l.journal_entries < 128
            &&& line.decoded is Ok
            &&& insert_fault(l.entries, line.decoded->Ok_0) is None
        },
{
}

proof fn lemma_none_unknown(v: Seq<EntryView>, lanes: Seq<LaneView>, i: int)
    requires
        0 <= i <= v.len(),
    ensures
        first_unknown(v, lanes, i) is None <==> (forall|k: int|
            i <= k < v.len() ==> has_lane(lanes, (#[trigger] v[k]).lane_id)),
    decreases v.len() - i,
{
    if i < v.len() {
        lemma_none_unknown(v, lanes, i + 1);
    }
}

/// What is recovered holds at most ten thousand turns, each of a known lane, and is
/// to be written anew exactly when an older turn was left out.
pub proof fn law_recovered_ledger_is_sound(
    snapshot: Seq<EntryView>,
    lines: Seq<JournalLineView>,
    lanes: Seq<LaneView>,
    now: u64,
    k: int,
)
    requires
        recovered(snapshot, lines, lanes, now) is Ok,
    ensures
        ({
            let l = recovered(snapshot, lines, lanes, now)->Ok_0;
            &&& l.entries.len() <= 10_000
            &&& 0 <= k < l.entries.len() ==> has_lane(lanes, l.entries[k].lane_id)
            &&& l.needs_durable_compaction <==> exists|e: EntryView|
                #![trigger snapshot.contains(e)]
                (snapshot.contains(e) || is_journaled(lines, lines.len() as int, e))
                    && e.interaction_created_at_ms + 604_800_000 < now
        }),
{
    let all = inserted_all(snapshot, snapshot.len() as int)->Ok_0;
    let start = LedgerView { entries: all, ..empty_ledger() };
    let l = folded_lines(start, lines, lines.len() as int)->Ok_0;
    let w = pruned(l, window_start(now));
    lemma_none_unknown(w.entries, lanes, 0);
    assert(snapshot.take(snapshot.len() as int) =~= snapshot);
    if any_old(l.entries, window_start(now)) {
        let i = choose|i: int|
            0 <= i < l.entries.len() && (#[trigger] l.entries[i]).interaction_created_at_ms
                < window_start(now);
        let e = l.entries[i];
        assert(l.entries.contains(e));
        lemma_folded_lines(start, lines, lines.len() as int, e);
        lemma_inserted_all(snapshot, snapshot.len() as int, e);
        assert(snapshot.contains(e) || is_journaled(lines, lines.len() as int, e));
    }
    if exists|e: EntryView|
        #![trigger snapshot.contains(e)]
        (snapshot.contains(e) || is_journaled(lines, lines.len() as int, e))
            && e.interaction_created_at_ms + 604_800_000 < now {
        let e = choose|e: EntryView|
            #![trigger snapshot.contains(e)]
            (snapshot.contains(e) || is_journaled(lines, lines.len() as int, e))
                && e.interaction_created_at_ms + 604_800_000 < now;
        lemma_folded_lines(start, lines, lines.len() as int, e);
        lemma_inserted_all(snapshot, snapshot.len() as int, e);
        assert(l.entries.contains(e));
        let i = choose|i: int| 0 <= i < l.entries.len() && l.entries[i] == e;
        assert(l.entries[i].interaction_created_at_ms < window_start(now));
    }
}

/// The count of a lane's turns on record is the largest that one of them gives it,
/// of those that are not too old.
pub proof fn law_journaled_count_is_the_largest(
    v: Seq<EntryView>,
    lane_id: Seq<char>,
    oldest: Option<u64>,
    n: int,
    k: int,
)
    requires
        0 <= n <= v.len(),
    ensures
        ({
            let c = journaled_count(v, lane_id, oldest, n);
            &&& 0 <= k < n && v[k].lane_id == lane_id && (oldest is None
                || v[k].interaction_created_at_ms >= oldest->0) ==> v[k].lane_interactions <= c
            &&& c > 0 ==> exists|j: int|
                0 <= j < n && (#[trigger] v[j]).lane_interactions == c && v[j].lane_id == lane_id
                    && (oldest is None || v[j].interaction_created_at_ms >= oldest->0)
        }),
    decreases n,
{
    if n > 0 {
        law_journaled_count_is_the_largest(v, lane_id, oldest, n - 1, k);
        let b = journaled_count(v, lane_id, oldest, n - 1);
        let c = journaled_count(v, lane_id, oldest, n);
        if c == b && b > 0 {
            let j = choose|j: int|
                0 <= j < n - 1 && (#[trigger] v[j]).lane_interactions == b && v[j].lane_id
                    == lane_id && (oldest is None || v[j].interaction_created_at_ms >= oldest->0);
            assert(v[j].lane_interactions == c);
        } else if c > 0 {
            assert(v[n - 1].lane_interactions == c);
        }
    }
}

} // verus!
