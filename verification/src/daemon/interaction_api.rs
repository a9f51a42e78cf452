//! Recording completed voice turns. A record is written to the journal before
//! the lane's count is saved, so that a crash in between is made good at the
//! next start.
use vstd::prelude::*;
use vstd::string::*;

use crate::clock::{stamp, stamp_text};
use crate::daemon::responses::{
    json, json_response, plain, plain_response, unknown_lane, unknown_lane_text, Response,
    ResponseView,
};
use crate::daemon::state::{
    changed_lanes, uncertain_refusal, uncertain_response, Daemon, DaemonView, LaneProgress,
    LaneProgressView, LaneSave, LaneSaveView,
};
use crate::interactions::{
    any_old, entry_position, find_entry, first_entry_fault, journaled_count, lane_interaction_count,
    max_journaled_interaction_count, next_count, next_interaction_count, pruned, registry_count,
    window_start, EntryView, InteractionEntry, InteractionLedger, LedgerFault, LedgerView,
    INTERACTION_DEDUPE_WINDOW_MS, MAX_INTERACTION_DEDUPE_ENTRIES, MAX_INTERACTION_FUTURE_SKEW_MS,
    MAX_INTERACTION_JOURNAL_ENTRIES,
};
use crate::json::{
    bool_text, field_views, json_bool, json_string, object_of, object_text, push_text,
};
use crate::lanes::{
    fault_words, find_lane, has_lane, lemma_position, position, registry_fault, touched, LaneView,
    RegistryView,
};
use crate::proto::{
    is_valid_lane_id, is_valid_opaque_id, valid_lane_id, valid_opaque_id, MAX_OPAQUE_ID_BYTES,
    MAX_OPAQUE_ID_LENGTH,
};
use crate::text::{byte_len, same_text, utf16_count, utf16_len, utf8_len};

verus! {

/// What every report is told once a line of the journal was uncertain.
pub const INTERACTION_PERSISTENCE_UNCERTAIN: &'static str =
    "interaction journal persistence is uncertain after a prior append failure that may have written bytes; restart telepathosd to reconcile before recording or retrying interactions";

/// Why a line was not added to the journal.
#[derive(Debug)]
pub enum InteractionJournalAppendError {
    /// The line is not there.
    Definite(String),
    /// Some of the line may be there.
    AmbiguousPostOpen(String),
    /// The line may survive a crash or not.
    AmbiguousPostAppendDirectorySync(String),
}

impl InteractionJournalAppendError {
    /// Whether the line may be there.
    pub fn is_ambiguous(&self) -> (r: bool)
        ensures
            r == !(self is Definite),
    {
        match self {
            InteractionJournalAppendError::Definite(_) => false,
            _ => true,
        }
    }

    /// The failure in words.
    pub open spec fn words(self) -> Seq<char> {
        match self {
            InteractionJournalAppendError::Definite(e) => e@,
            InteractionJournalAppendError::AmbiguousPostOpen(e) =>
                "interaction journal append may have written bytes before failing; restart telepathosd to reconcile before recording or retrying interactions: "@
                + e@,
            InteractionJournalAppendError::AmbiguousPostAppendDirectorySync(e) =>
                "interaction journal append may have committed but its directory could not be synced: "@
                + e@,
        }
    }

    /// The failure in words.
    pub fn message(&self) -> (r: String)
        ensures
            r@ == self.words(),
    {
        match self {
            InteractionJournalAppendError::Definite(e) => e.clone(),
            InteractionJournalAppendError::AmbiguousPostOpen(e) => {
                let mut s =
                    "interaction journal append may have written bytes before failing; restart telepathosd to reconcile before recording or retrying interactions: ".to_string();
                s.append(e.as_str());
                s
            },
            InteractionJournalAppendError::AmbiguousPostAppendDirectorySync(e) => {
                let mut s =
                    "interaction journal append may have committed but its directory could not be synced: ".to_string();
                s.append(e.as_str());
                s
            },
        }
    }
}

/// A report of a completed turn.
#[derive(Debug)]
pub struct InteractionReport {
    pub id: String,
    pub interaction_id: String,
    pub interaction_created_at_ms: u64,
    /// When the report is handled, in milliseconds.
    pub now_ms: u64,
}

/// A report as a value.
pub struct ReportView {
    pub id: Seq<char>,
    pub interaction_id: Seq<char>,
    pub interaction_created_at_ms: u64,
    pub now_ms: u64,
}

impl View for InteractionReport {
    type V = ReportView;

    open spec fn view(&self) -> ReportView {
        ReportView {
            id: self.id@,
            interaction_id: self.interaction_id@,
            interaction_created_at_ms: self.interaction_created_at_ms,
            now_ms: self.now_ms,
        }
    }
}

/// What comes next of a report.
#[derive(Debug)]
pub enum InteractionProgress {
    Done(Response),
    /// Write this ledger as the snapshot and empty the journal, since records
    /// out of the window must be gone before a new one comes.
    CompactExpired(InteractionReport, InteractionLedger),
    /// Write the ledger as the snapshot and empty the journal, since the journal
    /// is full.
    CompactJournal(InteractionReport),
    /// Add this record to the journal.
    Append(InteractionReport, InteractionEntry),
    /// Save the lanes.
    Save(LaneSave),
}

/// What comes next of a report, as a value.
pub enum InteractionProgressView {
    Done(ResponseView),
    CompactExpired(ReportView, LedgerView),
    CompactJournal(ReportView),
    Append(ReportView, EntryView),
    Save(LaneSaveView),
}

impl View for InteractionProgress {
    type V = InteractionProgressView;

    open spec fn view(&self) -> InteractionProgressView {
        match self {
            InteractionProgress::Done(r) => InteractionProgressView::Done(r@),
            InteractionProgress::CompactExpired(q, l) => InteractionProgressView::CompactExpired(
                q@,
                l@,
            ),
            InteractionProgress::CompactJournal(q) => InteractionProgressView::CompactJournal(q@),
            InteractionProgress::Append(q, e) => InteractionProgressView::Append(q@, e@),
            InteractionProgress::Save(s) => InteractionProgressView::Save(s@),
        }
    }
}

/// The answer to a report that is counted, now or before.
pub open spec fn counted(id: Seq<char>, duplicate: bool) -> ResponseView {
    json(
        200,
        object_text(
            seq![
                ("duplicate"@, json_bool(duplicate)),
                ("id"@, json_string(id)),
                ("ok"@, json_bool(true)),
            ],
        ),
    )
}

fn counted_response(id: &str, duplicate: bool) -> (r: Response)
    ensures
        r@ == counted(id@, duplicate),
{
    let mut fields: Vec<(&'static str, String)> = Vec::new();
    fields.push(("duplicate", bool_text(duplicate)));
    assert(field_views(fields@) =~= seq![("duplicate"@, json_bool(duplicate))]);
    push_text(&mut fields, "id", id);
    let ghost before = field_views(fields@);
    fields.push(("ok", bool_text(true)));
    assert(field_views(fields@) =~= before.push(("ok"@, json_bool(true))));
    assert(field_views(fields@) =~= seq![
        ("duplicate"@, json_bool(duplicate)),
        ("id"@, json_string(id@)),
        ("ok"@, json_bool(true)),
    ]);
    json_response(200, object_of(&fields))
}

/// How late a report's own time may be at `now`.
pub open spec fn latest_allowed(now_ms: u64) -> u64 {
    if now_ms > u64::MAX - MAX_INTERACTION_FUTURE_SKEW_MS {
        u64::MAX
    } else {
        (now_ms + MAX_INTERACTION_FUTURE_SKEW_MS) as u64
    }
}

/// What is wrong with a report.
pub open spec fn report_fault(d: DaemonView, q: ReportView) -> Option<ResponseView> {
    if utf8_len(q.interaction_id) > MAX_OPAQUE_ID_BYTES || utf16_len(q.interaction_id)
        > MAX_OPAQUE_ID_LENGTH {
        Some(plain(413, "interaction_id exceeds the maximum supported length"@))
    } else if !valid_lane_id(q.id) || !valid_opaque_id(q.interaction_id) {
        Some(plain(400, "id must match the lane ID grammar"@))
    } else if d.interaction_uncertain {
        Some(plain(503, INTERACTION_PERSISTENCE_UNCERTAIN@))
    } else if d.lane_uncertain {
        Some(uncertain_refusal())
    } else if registry_fault(d.reg) is Some {
        Some(plain(500, fault_words(registry_fault(d.reg)->0)))
    } else if !has_lane(d.reg.lanes, q.id) {
        Some(plain(404, unknown_lane(q.id)))
    } else if first_entry_fault(d.ledger.entries, 0) is Some {
        Some(
            plain(
                500,
                first_entry_fault(d.ledger.entries, 0)->0.words("in-memory interaction ledger"@),
            ),
        )
    } else if q.interaction_created_at_ms < window_start(q.now_ms) {
        Some(
            plain(
                410,
                "interaction_id is outside the seven-day dedupe retry horizon; it was not counted"@,
            ),
        )
    } else if q.interaction_created_at_ms > latest_allowed(q.now_ms) {
        Some(
            plain(400, "interaction_created_at_ms is more than five minutes in the future"@),
        )
    } else {
        None
    }
}

/// Whether the turn is on record and within the window.
pub open spec fn on_record(l: LedgerView, q: ReportView) -> bool {
    let p = entry_position(l.entries, q.interaction_id, 0);
    p < l.entries.len() && l.entries[p].interaction_created_at_ms >= window_start(q.now_ms)
}

/// The lanes with a new count for one of them, touched at `now`.
pub open spec fn counted_lanes(
    reg: RegistryView,
    id: Seq<char>,
    count: u64,
    now: Seq<char>,
) -> RegistryView {
    let p = position(reg.lanes, id);
    let raised = RegistryView {
        lanes: reg.lanes.update(p, LaneView { interactions: Some(count), ..reg.lanes[p] }),
        ..reg
    };
    touched(raised, id, now)
}

/// A change of the lanes as the next step of a report.
pub open spec fn lane_step(p: (DaemonView, LaneProgressView)) -> (
    DaemonView,
    InteractionProgressView,
) {
    match p.1 {
        LaneProgressView::Done(r) => (p.0, InteractionProgressView::Done(r)),
        LaneProgressView::Save(s) => (p.0, InteractionProgressView::Save(s)),
    }
}

/// The record of a new turn.
pub open spec fn new_entry(q: ReportView, count: u64) -> EntryView {
    EntryView {
        interaction_id: q.interaction_id,
        lane_id: q.id,
        interaction_created_at_ms: q.interaction_created_at_ms,
        lane_interactions: count,
    }
}

/// The count that a new turn gets.
pub open spec fn turn_count(d: DaemonView, id: Seq<char>) -> Option<u64> {
    next_count(
        registry_count(d.reg, id),
        journaled_count(d.ledger.entries, id, None, d.ledger.entries.len() as int),
    )
}

/// What comes of a new turn once the journal has room: its record is added to
/// the journal, unless the ledger is full.
pub open spec fn append_turn(d: DaemonView, q: ReportView) -> (DaemonView, InteractionProgressView) {
    match turn_count(d, q.id) {
        None => (
            d,
            InteractionProgressView::Done(plain(500, LedgerFault::CountExhausted.words(""@))),
        ),
        Some(n) => if d.ledger.entries.len() >= MAX_INTERACTION_DEDUPE_ENTRIES {
            (
                d,
                InteractionProgressView::Done(
                    plain(
                        503,
                        "interaction dedupe capacity is full; retry without creating a new interaction_id"@,
                    ),
                ),
            )
        } else {
            (d, InteractionProgressView::Append(q, new_entry(q, n)))
        },
    }
}

/// What comes of a report once no record out of the window is left in its way.
/// A turn on record is not counted again; where its lane is below it, because a
/// save failed, the lane is brought up to it.
pub open spec fn admit_turn(d: DaemonView, q: ReportView) -> (DaemonView, InteractionProgressView) {
    let p = entry_position(d.ledger.entries, q.interaction_id, 0);
    if p < d.ledger.entries.len() {
        let e = d.ledger.entries[p];
        if e.lane_id != q.id || e.interaction_created_at_ms != q.interaction_created_at_ms {
            (
                d,
                InteractionProgressView::Done(
                    plain(
                        409,
                        "interaction_id was already recorded with different interaction metadata"@,
                    ),
                ),
            )
        } else if registry_count(d.reg, q.id) < e.lane_interactions {
            lane_step(
                changed_lanes(
                    d,
                    counted_lanes(d.reg, q.id, e.lane_interactions, stamp(q.now_ms as nat)),
                    counted(q.id, true),
                ),
            )
        } else {
            (d, InteractionProgressView::Done(counted(q.id, true)))
        }
    } else if turn_count(d, q.id) is None {
        (d, InteractionProgressView::Done(plain(500, LedgerFault::CountExhausted.words(""@))))
    } else if d.ledger.journal_entries >= MAX_INTERACTION_JOURNAL_ENTRIES {
        (d, InteractionProgressView::CompactJournal(q))
    } else {
        append_turn(d, q)
    }
}

/// What comes of a report.
pub open spec fn report_turn(d: DaemonView, q: ReportView) -> (DaemonView, InteractionProgressView) {
    match report_fault(d, q) {
        Some(r) => (d, InteractionProgressView::Done(r)),
        None => if !on_record(d.ledger, q) && (any_old(d.ledger.entries, window_start(q.now_ms))
            || d.ledger.needs_durable_compaction) {
            (
                d,
                InteractionProgressView::CompactExpired(
                    q,
                    pruned(d.ledger, window_start(q.now_ms)),
                ),
            )
        } else {
            admit_turn(d, q)
        },
    }
}

/// A ledger whose snapshot was written and whose journal was emptied.
pub open spec fn compacted(l: LedgerView) -> LedgerView {
    LedgerView { journal_entries: 0, needs_durable_compaction: false, ..l }
}

/// What comes of a report after records out of the window were to be removed
/// from the files. Where that failed, the report is not taken and the ledger is
/// as before.
pub open spec fn expired_turn(
    d: DaemonView,
    q: ReportView,
    l: LedgerView,
    outcome: Result<(), Seq<char>>,
) -> (DaemonView, InteractionProgressView) {
    match outcome {
        Err(e) => (d, InteractionProgressView::Done(plain(500, e))),
        Ok(_) => admit_turn(DaemonView { ledger: compacted(l), ..d }, q),
    }
}

/// What comes of a report after a full journal was to be emptied.
pub open spec fn compacted_turn(
    d: DaemonView,
    q: ReportView,
    outcome: Result<(), Seq<char>>,
) -> (DaemonView, InteractionProgressView) {
    match outcome {
        Err(e) => (d, InteractionProgressView::Done(plain(500, e))),
        Ok(_) => append_turn(DaemonView { ledger: compacted(d.ledger), ..d }, q),
    }
}

/// The ledger with one more record in its journal.
pub open spec fn appended(l: LedgerView, e: EntryView) -> LedgerView {
    LedgerView {
        entries: l.entries.push(e),
        journal_entries: if l.journal_entries < usize::MAX {
            (l.journal_entries + 1) as usize
        } else {
            l.journal_entries
        },
        ..l
    }
}

/// What comes of a report after its record was to be added to the journal. A
/// line that may be there blocks further reports.
pub open spec fn appended_turn(
    d: DaemonView,
    q: ReportView,
    e: EntryView,
    outcome: Result<(), InteractionJournalAppendError>,
) -> (DaemonView, InteractionProgressView) {
    match outcome {
        Err(error) => if error is Definite {
            (d, InteractionProgressView::Done(plain(500, error.words())))
        } else {
            (
                DaemonView { interaction_uncertain: true, ..d },
                InteractionProgressView::Done(plain(503, error.words())),
            )
        },
        Ok(_) => {
            let t = DaemonView { ledger: appended(d.ledger, e), ..d };
            lane_step(
                changed_lanes(
                    t,
                    counted_lanes(d.reg, q.id, e.lane_interactions, stamp(q.now_ms as nat)),
                    counted(q.id, false),
                ),
            )
        },
    }
}

/// The view of an outcome.
pub open spec fn outcome_view(r: Result<(), String>) -> Result<(), Seq<char>> {
    match r {
        Ok(_) => Ok(()),
        Err(e) => Err(e@),
    }
}

impl Daemon {
    fn check_report(&self, q: &InteractionReport) -> (r: Option<Response>)
        ensures
            match r {
                Some(x) => report_fault(self@, q@) == Some(x@),
                None => report_fault(self@, q@) is None,
            },
    {
        if byte_len(q.interaction_id.as_str()) > MAX_OPAQUE_ID_BYTES || utf16_count(
            q.interaction_id.as_str(),
        ) > MAX_OPAQUE_ID_LENGTH {
            return Some(
                plain_response(413, "interaction_id exceeds the maximum supported length"),
            );
        }
        if !is_valid_lane_id(q.id.as_str()) || !is_valid_opaque_id(q.interaction_id.as_str()) {
            return Some(plain_response(400, "id must match the lane ID grammar"));
        }
        if self.interaction_persistence_uncertain {
            return Some(plain_response(503, INTERACTION_PERSISTENCE_UNCERTAIN));
        }
        if self.lane_persistence_uncertain {
            return Some(uncertain_response());
        }
        match self.reg.validate() {
            Err(e) => {
                return Some(plain_response(500, e.as_str()));
            },
            Ok(_) => {},
        }
        if !self.reg.knows(q.id.as_str()) {
            let words = unknown_lane_text(q.id.as_str());
            return Some(plain_response(404, words.as_str()));
        }
        match self.ledger.validate() {
            Err(e) => {
                let words = e.message("in-memory interaction ledger");
                return Some(plain_response(500, words.as_str()));
            },
            Ok(_) => {},
        }
        if q.interaction_created_at_ms < q.now_ms.saturating_sub(INTERACTION_DEDUPE_WINDOW_MS) {
            return Some(
                plain_response(
                    410,
                    "interaction_id is outside the seven-day dedupe retry horizon; it was not counted",
                ),
            );
        }
        if q.interaction_created_at_ms > q.now_ms.saturating_add(MAX_INTERACTION_FUTURE_SKEW_MS) {
            return Some(
                plain_response(
                    400,
                    "interaction_created_at_ms is more than five minutes in the future",
                ),
            );
        }
        None
    }

    /// Sets a lane's count and touches it, and asks for the save.
    fn count_lane(&mut self, id: &str, count: u64, now_ms: u64, success: Response) -> (r:
        InteractionProgress)
        requires
            valid_lane_id(id@),
            has_lane(old(self)@.reg.lanes, id@),
        ensures
            (final(self)@, r@) == lane_step(
                changed_lanes(
                    old(self)@,
                    counted_lanes(old(self)@.reg, id@, count, stamp(now_ms as nat)),
                    success@,
                ),
            ),
    {
        let before = self.reg.clone();
        let p: usize = find_lane(&self.reg.lanes, id);
        proof {
            lemma_position(self@.reg.lanes, id@);
        }
        self.reg.lanes[p].interactions = Some(count);
        let ghost raised = RegistryView {
            lanes: before@.lanes.update(
                p as int,
                LaneView { interactions: Some(count), ..before@.lanes[p as int] },
            ),
            ..before@
        };
        proof {
            assert(self.reg@.lanes =~= raised.lanes);
            assert(self.reg@.lanes[p as int].id == id@);
            lemma_position(self.reg@.lanes, id@);
        }
        let now = stamp_text(now_ms as u128);
        let _ = self.reg.touch_at(id, now.as_str());
        assert(self@.reg == counted_lanes(before@, id@, count, stamp(now_ms as nat)));
        match self.changed(before, success) {
            LaneProgress::Done(r) => InteractionProgress::Done(r),
            LaneProgress::Save(s) => InteractionProgress::Save(s),
        }
    }

    fn append_report(&self, q: InteractionReport) -> (r: InteractionProgress)
        ensures
            (self@, r@) == append_turn(self@, q@),
    {
        let here: u64 = lane_interaction_count(&self.reg, q.id.as_str());
        let journaled: u64 = max_journaled_interaction_count(&self.ledger, q.id.as_str(), None);
        let count: u64 = match next_interaction_count(here, journaled) {
            Ok(n) => n,
            Err(e) => {
                let words = e.message("");
                return InteractionProgress::Done(plain_response(500, words.as_str()));
            },
        };
        if self.ledger.entries.len() >= MAX_INTERACTION_DEDUPE_ENTRIES {
            return InteractionProgress::Done(
                plain_response(
                    503,
                    "interaction dedupe capacity is full; retry without creating a new interaction_id",
                ),
            );
        }
        let entry = InteractionEntry {
            interaction_id: q.interaction_id.clone(),
            lane_id: q.id.clone(),
            interaction_created_at_ms: q.interaction_created_at_ms,
            lane_interactions: count,
        };
        assert(entry@ =~= new_entry(q@, count));
        InteractionProgress::Append(q, entry)
    }

    fn admit_report(&mut self, q: InteractionReport) -> (r: InteractionProgress)
        requires
            valid_lane_id(q@.id),
            has_lane(old(self)@.reg.lanes, q@.id),
        ensures
            (final(self)@, r@) == admit_turn(old(self)@, q@),
    {
        let p: usize = find_entry(&self.ledger.entries, q.interaction_id.as_str());
        if p < self.ledger.entries.len() {
            let e = self.ledger.entries[p].clone();
            assert(e@ == self@.ledger.entries[p as int]);
            if !same_text(e.lane_id.as_str(), q.id.as_str()) || e.interaction_created_at_ms
                != q.interaction_created_at_ms {
                return InteractionProgress::Done(
                    plain_response(
                        409,
                        "interaction_id was already recorded with different interaction metadata",
                    ),
                );
            }
            let here: u64 = lane_interaction_count(&self.reg, q.id.as_str());
            let success = counted_response(q.id.as_str(), true);
            if here < e.lane_interactions {
                return self.count_lane(q.id.as_str(), e.lane_interactions, q.now_ms, success);
            }
            return InteractionProgress::Done(success);
        }
        let here: u64 = lane_interaction_count(&self.reg, q.id.as_str());
        let journaled: u64 = max_journaled_interaction_count(&self.ledger, q.id.as_str(), None);
        match next_interaction_count(here, journaled) {
            Err(e) => {
                let words = e.message("");
                return InteractionProgress::Done(plain_response(500, words.as_str()));
            },
            Ok(_) => {},
        }
        if self.ledger.journal_entries >= MAX_INTERACTION_JOURNAL_ENTRIES {
            return InteractionProgress::CompactJournal(q);
        }
        self.append_report(q)
    }

    /// Takes in the report of a completed turn.
    pub fn record_interaction(&mut self, q: InteractionReport) -> (r: InteractionProgress)
        ensures
            (final(self)@, r@) == report_turn(old(self)@, q@),
    {
        match self.check_report(&q) {
            Some(x) => {
                return InteractionProgress::Done(x);
            },
            None => {},
        }
        let oldest: u64 = q.now_ms.saturating_sub(INTERACTION_DEDUPE_WINDOW_MS);
        let p: usize = find_entry(&self.ledger.entries, q.interaction_id.as_str());
        let live = if p < self.ledger.entries.len() {
            assert(self@.ledger.entries[p as int] == self.ledger.entries@[p as int]@);
            self.ledger.entries[p].interaction_created_at_ms >= oldest
        } else {
            false
        };
        if !live {
            let mut smaller = self.ledger.clone();
            let any = smaller.prune_expired(oldest);
            if any || smaller.needs_durable_compaction {
                return InteractionProgress::CompactExpired(q, smaller);
            }
        }
        self.admit_report(q)
    }

    /// Goes on with a report after the files were to lose the records out of
    /// the window.
    pub fn expired_compacted(
        &mut self,
        q: InteractionReport,
        smaller: InteractionLedger,
        outcome: Result<(), String>,
    ) -> (r: InteractionProgress)
        requires
            valid_lane_id(q@.id),
            has_lane(old(self)@.reg.lanes, q@.id),
        ensures
            (final(self)@, r@) == expired_turn(old(self)@, q@, smaller@, outcome_view(outcome)),
    {
        match outcome {
            Err(e) => InteractionProgress::Done(plain_response(500, e.as_str())),
            Ok(_) => {
                let mut ledger = smaller;
                ledger.journal_entries = 0;
                ledger.needs_durable_compaction = false;
                self.ledger = ledger;
                self.admit_report(q)
            },
        }
    }

    /// Goes on with a report after a full journal was to be emptied.
    pub fn journal_compacted(&mut self, q: InteractionReport, outcome: Result<(), String>) -> (r:
        InteractionProgress)
        ensures
            (final(self)@, r@) == compacted_turn(old(self)@, q@, outcome_view(outcome)),
    {
        match outcome {
            Err(e) => InteractionProgress::Done(plain_response(500, e.as_str())),
            Ok(_) => {
                self.ledger.journal_entries = 0;
                self.ledger.needs_durable_compaction = false;
                self.append_report(q)
            },
        }
    }

    /// Goes on with a report after its record was to be added to the journal.
    pub fn interaction_appended(
        &mut self,
        q: InteractionReport,
        entry: InteractionEntry,
        outcome: Result<(), InteractionJournalAppendError>,
    ) -> (r: InteractionProgress)
        requires
            valid_lane_id(q@.id),
            has_lane(old(self)@.reg.lanes, q@.id),
        ensures
            (final(self)@, r@) == appended_turn(old(self)@, q@, entry@, outcome),
    {
        match outcome {
            Err(error) => {
                let words = error.message();
                if error.is_ambiguous() {
                    self.interaction_persistence_uncertain = true;
                    InteractionProgress::Done(plain_response(503, words.as_str()))
                } else {
                    InteractionProgress::Done(plain_response(500, words.as_str()))
                }
            },
            Ok(_) => {
                let count: u64 = entry.lane_interactions;
                let ghost e = entry@;
                let ghost l = self@.ledger;
                self.ledger.entries.push(entry);
                self.ledger.journal_entries = self.ledger.journal_entries.saturating_add(1);
                assert(self@.ledger =~= appended(l, e));
                let success = counted_response(q.id.as_str(), false);
                self.count_lane(q.id.as_str(), count, q.now_ms, success)
            },
        }
    }
}

// ---- what a reporter can count on -----------------------------------------------

/// A turn that was recorded is counted once: the same report again is answered
/// as a duplicate and adds nothing to the journal, whatever became of the save.
pub proof fn law_recorded_turn_is_counted_once(d: DaemonView, q: ReportView, count: u64)
    requires
        entry_position(d.ledger.entries, q.interaction_id, 0) == d.ledger.entries.len(),
    ensures
        ({
            let t = DaemonView { ledger: appended(d.ledger, new_entry(q, count)), ..d };
            let p = admit_turn(t, q);
            &&& p.0.ledger == t.ledger
            &&& !(p.1 is Append) && !(p.1 is CompactJournal)
            &&& (registry_count(t.reg, q.id) >= count ==> p == (
                t,
                InteractionProgressView::Done(counted(q.id, true)),
            ))
        }),
{
    let v = d.ledger.entries;
    let e = new_entry(q, count);
    let w = v.push(e);
    crate::interactions::lemma_entry_position(v, q.interaction_id, 0);
    crate::interactions::lemma_entry_position(w, q.interaction_id, 0);
    let p = entry_position(w, q.interaction_id, 0);
    assert(w[v.len() as int] == e);
    if p < v.len() {
        assert(w[p] == v[p]);
    }
}

/// A report out of the window is never counted and changes nothing.
pub proof fn law_expired_report_is_not_counted(d: DaemonView, q: ReportView)
    requires
        q.interaction_created_at_ms < window_start(q.now_ms),
    ensures
        report_turn(d, q).0 == d,
        report_turn(d, q).1 is Done,
{
}

/// Once a line of the journal was uncertain, no report is taken until a
/// restart.
pub proof fn law_uncertain_journal_blocks_reports(d: DaemonView, q: ReportView)
    requires
        d.interaction_uncertain,
    ensures
        report_turn(d, q).0 == d,
        report_turn(d, q).1 is Done,
{
}

/// The count of a new turn is one above every count of its lane on record, so
/// that counts never repeat.
pub proof fn law_new_count_is_above_all(d: DaemonView, id: Seq<char>, k: int)
    requires
        turn_count(d, id) is Some,
        0 <= k < d.ledger.entries.len(),
        d.ledger.entries[k].lane_id == id,
    ensures
        turn_count(d, id)->0 > registry_count(d.reg, id),
        turn_count(d, id)->0 > d.ledger.entries[k].lane_interactions,
        turn_count(d, id)->0 <= crate::proto::MAX_SAFE_SEQUENCE,
{
    lemma_journaled(d.ledger.entries, id, d.ledger.entries.len() as int, k);
}

proof fn lemma_journaled(v: Seq<EntryView>, id: Seq<char>, n: int, k: int)
    requires
        0 <= k < n <= v.len(),
        v[k].lane_id == id,
    ensures
        journaled_count(v, id, None, n) >= v[k].lane_interactions,
    decreases n,
{
    if k < n - 1 {
        lemma_journaled(v, id, n - 1, k);
    }
}

} // verus!
