//! The daemon's own state, and how a change of the lanes is saved or undone.
use vstd::prelude::*;
use vstd::string::*;

use crate::daemon::responses::{refusal, refusal_response, Response, ResponseView};
use crate::interactions::{InteractionLedger, LedgerView};
use crate::lanes::{
    active_lane, fault_words, registry_fault, LaneCreateError, LaneRegistry, LaneRegistrySaveError,
    RegistryView,
};
use crate::revision::{advance_registry_revision, next_revision, RevisionError};
use crate::text::same_text;

verus! {

/// The lanes, their revision, the ledger of turns, and what is known of their
/// files.
#[derive(Debug)]
pub struct Daemon {
    pub reg: LaneRegistry,
    pub registry_revision: u64,
    /// Set once a save of the lanes may or may not have happened.
    pub lane_persistence_uncertain: bool,
    /// Set once a line of the journal may or may not have been written.
    pub interaction_persistence_uncertain: bool,
    pub ledger: InteractionLedger,
    /// The number of the next message.
    pub msg_seq: u64,
}

/// The daemon's state as a value.
#[verifier::ext_equal]
pub struct DaemonView {
    pub reg: RegistryView,
    pub revision: u64,
    pub lane_uncertain: bool,
    pub interaction_uncertain: bool,
    pub ledger: LedgerView,
    pub msg_seq: u64,
}

impl View for Daemon {
    type V = DaemonView;

    open spec fn view(&self) -> DaemonView {
        DaemonView {
            reg: self.reg@,
            revision: self.registry_revision,
            lane_uncertain: self.lane_persistence_uncertain,
            interaction_uncertain: self.interaction_persistence_uncertain,
            ledger: self.ledger@,
            msg_seq: self.msg_seq,
        }
    }
}

/// A change of the lanes that waits to be saved: what to go back to, and the
/// answer once it is saved.
#[derive(Debug)]
pub struct LaneSave {
    pub before: LaneRegistry,
    pub revision_before: u64,
    pub success: Response,
}

/// A waiting change as a value.
pub struct LaneSaveView {
    pub before: RegistryView,
    pub revision_before: u64,
    pub success: ResponseView,
}

impl View for LaneSave {
    type V = LaneSaveView;

    open spec fn view(&self) -> LaneSaveView {
        LaneSaveView {
            before: self.before@,
            revision_before: self.revision_before,
            success: self.success@,
        }
    }
}

/// What comes next: an answer, or the registry to save.
#[derive(Debug)]
pub enum LaneProgress {
    Done(Response),
    Save(LaneSave),
}

/// What comes next, as a value.
pub enum LaneProgressView {
    Done(ResponseView),
    Save(LaneSaveView),
}

impl View for LaneProgress {
    type V = LaneProgressView;

    open spec fn view(&self) -> LaneProgressView {
        match self {
            LaneProgress::Done(r) => LaneProgressView::Done(r@),
            LaneProgress::Save(s) => LaneProgressView::Save(s@),
        }
    }
}

/// What every change of the lanes is told once a save was uncertain.
pub const LANE_PERSISTENCE_UNCERTAIN: &'static str =
    "lane persistence is uncertain after a prior post-rename failure; restart telepathosd to reconcile before changing lanes";

/// The answer to a change after an uncertain save.
pub open spec fn uncertain_refusal() -> ResponseView {
    refusal(503, LANE_PERSISTENCE_UNCERTAIN@)
}

/// The answer to a change after an uncertain save.
pub fn uncertain_response() -> (r: Response)
    ensures
        r@ == uncertain_refusal(),
{
    refusal_response(503, LANE_PERSISTENCE_UNCERTAIN)
}

/// The answer to a lane that cannot be created: a full registry is a conflict,
/// any other refusal a bad request.
pub open spec fn create_error_refusal(e: LaneCreateError) -> ResponseView {
    refusal(
        if e == LaneCreateError::CapacityReached {
            409u16
        } else {
            400u16
        },
        e.words(),
    )
}

/// The answer to a lane that cannot be created.
pub fn lane_create_error_response(e: LaneCreateError) -> (r: Response)
    ensures
        r@ == create_error_refusal(e),
{
    let words = e.message();
    let status: u16 = if e == LaneCreateError::CapacityReached {
        409
    } else {
        400
    };
    refusal_response(status, words.as_str())
}

/// Whether the selection or the set of lanes changed.
pub open spec fn selection_changed(before: RegistryView, after: RegistryView) -> bool {
    ||| before.active_id != after.active_id
    ||| before.previous_id != after.previous_id
    ||| before.lanes.len() != after.lanes.len()
    ||| exists|i: int|
        0 <= i < before.lanes.len() && i < after.lanes.len() && (#[trigger] before.lanes[i]).id
            != after.lanes[i].id
}

/// Whether the selection or the set of lanes changed.
pub fn lane_selection_changed(before: &LaneRegistry, after: &LaneRegistry) -> (r: bool)
    ensures
        r == selection_changed(before@, after@),
{
    if !same_text(before.active_id.as_str(), after.active_id.as_str()) || !same_text(
        before.previous_id.as_str(),
        after.previous_id.as_str(),
    ) || before.lanes.len() != after.lanes.len() {
        return true;
    }
    let ghost a = before@.lanes;
    let ghost b = after@.lanes;
    for i in 0..before.lanes.len()
        invariant
            a == before@.lanes,
            b == after@.lanes,
            a.len() == b.len(),
            forall|k: int| 0 <= k < i ==> (#[trigger] a[k]).id == b[k].id,
    {
        assert(a[i as int] == before.lanes@[i as int]@);
        assert(b[i as int] == after.lanes@[i as int]@);
        if !same_text(before.lanes[i].id.as_str(), after.lanes[i].id.as_str()) {
            assert(a[i as int].id != b[i as int].id);
            return true;
        }
    }
    false
}

/// Whether two registries are the same in every field.
pub fn same_registry(a: &LaneRegistry, b: &LaneRegistry) -> (r: bool)
    ensures
        r == (a@ == b@),
{
    if !same_text(a.active_id.as_str(), b.active_id.as_str()) || !same_text(
        a.previous_id.as_str(),
        b.previous_id.as_str(),
    ) || a.lanes.len() != b.lanes.len() {
        assert(a@.lanes.len() == a.lanes@.len());
        assert(b@.lanes.len() == b.lanes@.len());
        return false;
    }
    let ghost x = a@.lanes;
    let ghost y = b@.lanes;
    for i in 0..a.lanes.len()
        invariant
            x == a@.lanes,
            y == b@.lanes,
            x.len() == y.len(),
            forall|k: int| 0 <= k < i ==> #[trigger] x[k] == y[k],
    {
        assert(x[i as int] == a.lanes@[i as int]@);
        assert(y[i as int] == b.lanes@[i as int]@);
        if !crate::lanes::same_lane(&a.lanes[i], &b.lanes[i]) {
            return false;
        }
    }
    assert(x =~= y);
    true
}

/// What comes of a change of the lanes: the revision moves on where the
/// selection changed, and the registry is to be saved. Without a next revision,
/// or with a registry that may not be kept, the change is given up.
pub open spec fn changed_lanes(
    d: DaemonView,
    after: RegistryView,
    success: ResponseView,
) -> (DaemonView, LaneProgressView) {
    let save = LaneProgressView::Save(
        LaneSaveView { before: d.reg, revision_before: d.revision, success },
    );
    let moved = if selection_changed(d.reg, after) {
        next_revision(d.revision)
    } else {
        Some(d.revision)
    };
    match moved {
        None => (
            d,
            LaneProgressView::Done(refusal(500, RevisionError::Exhausted(d.revision).words())),
        ),
        Some(n) => match registry_fault(after) {
            Some(fault) => (
                d,
                LaneProgressView::Done(
                    refusal(
                        500,
                        "lane change was rolled back: "@ + ("invalid lane registry: "@
                            + fault_words(fault)),
                    ),
                ),
            ),
            None => (DaemonView { reg: after, revision: n, ..d }, save),
        },
    }
}

/// The daemon after an attempt to save its lanes. A save that did not happen
/// undoes the change; an uncertain one keeps it and blocks every later change.
pub open spec fn after_save(
    d: DaemonView,
    save: LaneSaveView,
    outcome: Result<(), LaneRegistrySaveError>,
) -> DaemonView {
    match outcome {
        Ok(_) => d,
        Err(LaneRegistrySaveError::AmbiguousPostRename(_)) => DaemonView {
            lane_uncertain: true,
            ..d
        },
        Err(_) => DaemonView { reg: save.before, revision: save.revision_before, ..d },
    }
}

/// The answer after an attempt to save the lanes.
pub open spec fn save_answer(
    save: LaneSaveView,
    outcome: Result<(), LaneRegistrySaveError>,
) -> ResponseView {
    match outcome {
        Ok(_) => save.success,
        Err(e) => if e is AmbiguousPostRename {
            refusal(
                503,
                "lane change may have committed and further lane writes are blocked until restart: "@
                    + e.words(),
            )
        } else {
            refusal(500, "lane change was rolled back: "@ + e.words())
        },
    }
}

impl Daemon {
    /// Takes in how the save of the lanes ended.
    pub fn commit_lane_mutation(
        &mut self,
        save: LaneSave,
        outcome: Result<(), LaneRegistrySaveError>,
    ) -> (r: Response)
        ensures
            r@ == save_answer(save@, outcome),
            final(self)@ == after_save(old(self)@, save@, outcome),
    {
        match outcome {
            Ok(_) => save.success,
            Err(e) => {
                let words = e.message();
                if e.is_ambiguous() {
                    self.lane_persistence_uncertain = true;
                    let mut s =
                        "lane change may have committed and further lane writes are blocked until restart: ".to_string();
                    s.append(words.as_str());
                    refusal_response(503, s.as_str())
                } else {
                    self.reg = save.before;
                    self.registry_revision = save.revision_before;
                    let mut s = "lane change was rolled back: ".to_string();
                    s.append(words.as_str());
                    refusal_response(500, s.as_str())
                }
            },
        }
    }

    /// Goes on from a change that was made to the lanes: moves the revision on
    /// where the selection changed, and asks for the save of a registry that may
    /// be kept.
    pub(crate) fn changed(&mut self, before: LaneRegistry, success: Response) -> (r: LaneProgress)
        ensures
            (final(self)@, r@) == changed_lanes(
                DaemonView { reg: before@, ..old(self)@ },
                old(self)@.reg,
                success@,
            ),
    {
        let revision_before: u64 = self.registry_revision;
        if lane_selection_changed(&before, &self.reg) {
            match advance_registry_revision(revision_before) {
                Ok(n) => {
                    self.registry_revision = n;
                },
                Err(e) => {
                    self.reg = before;
                    let words = e.message();
                    return LaneProgress::Done(refusal_response(500, words.as_str()));
                },
            }
        }
        match self.reg.validate() {
            Err(e) => {
                self.reg = before;
                self.registry_revision = revision_before;
                let words = LaneRegistrySaveError::InvalidRegistry(e).message();
                let mut s = "lane change was rolled back: ".to_string();
                s.append(words.as_str());
                LaneProgress::Done(refusal_response(500, s.as_str()))
            },
            Ok(_) => LaneProgress::Save(LaneSave { before, revision_before, success }),
        }
    }
}

/// Whether the daemon starts with lanes that were brought in line with the
/// journal, once it is known how their save ended: it starts with writes
/// blocked where the save is uncertain, and not at all where it failed.
pub open spec fn recovery(
    reg: RegistryView,
    outcome: Result<(), LaneRegistrySaveError>,
) -> Result<bool, Seq<char>> {
    match outcome {
        Ok(_) => Ok(false),
        Err(e) => if e is AmbiguousPostRename {
            Ok(true)
        } else {
            Err(
                "cannot persist recovered lane interactions for "@ + active_lane(reg).id + ": "@
                    + e.words(),
            )
        },
    }
}

/// Takes in how the save of recovered lanes ended. Says whether writes are
/// blocked.
pub fn recover_lanes(reg: &LaneRegistry, outcome: Result<(), LaneRegistrySaveError>) -> (r: Result<
    bool,
    String,
>)
    requires
        reg@.lanes.len() > 0,
    ensures
        match r {
            Ok(blocked) => recovery(reg@, outcome) == Ok::<bool, Seq<char>>(blocked),
            Err(words) => recovery(reg@, outcome) == Err::<bool, Seq<char>>(words@),
        },
{
    match outcome {
        Ok(_) => Ok(false),
        Err(e) => {
            if e.is_ambiguous() {
                return Ok(true);
            }
            let mut s = "cannot persist recovered lane interactions for ".to_string();
            s.append(reg.active().id.as_str());
            s.append(": ");
            let words = e.message();
            s.append(words.as_str());
            Err(s)
        },
    }
}

/// A change of the lanes that could not be saved leaves no trace.
pub proof fn law_failed_save_undoes_the_change(
    d: DaemonView,
    after: RegistryView,
    success: ResponseView,
    e: LaneRegistrySaveError,
)
    requires
        !(e is AmbiguousPostRename),
    ensures
        ({
            let p = changed_lanes(d, after, success);
            p.1 is Save ==> after_save(p.0, p.1->Save_0, Err(e)) == d
        }),
{
    let p = changed_lanes(d, after, success);
    if p.1 is Save {
        assert(after_save(p.0, p.1->Save_0, Err(e)) =~= d);
    }
}

/// An uncertain save keeps the change and blocks further ones.
pub proof fn law_uncertain_save_keeps_and_blocks(
    d: DaemonView,
    after: RegistryView,
    success: ResponseView,
    e: LaneRegistrySaveError,
)
    requires
        e is AmbiguousPostRename,
    ensures
        ({
            let p = changed_lanes(d, after, success);
            p.1 is Save ==> {
                let q = after_save(p.0, p.1->Save_0, Err(e));
                q.reg == after && q.lane_uncertain && q.revision == p.0.revision
            }
        }),
{
}

} // verus!
