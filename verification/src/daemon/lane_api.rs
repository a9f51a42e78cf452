//! Creating, activating and touching lanes.
use vstd::prelude::*;

use crate::clock::{stamp, stamp_text};
use crate::daemon::responses::{
    bare_ok, lane_ok, lane_response, ok_response, refusal, refusal_response, unknown_lane,
    unknown_lane_text,
};
use crate::daemon::state::{
    changed_lanes, create_error_refusal, lane_create_error_response, uncertain_refusal,
    uncertain_response, Daemon, DaemonView, LaneProgress, LaneProgressView,
};
use crate::lanes::{
    create_refusal, created_lane, has_lane, name_refusal, position, switched, touched, LaneRegistry,
};
use crate::meta::{created_and_switched, lemma_created_is_reachable};
use crate::proto::{is_valid_lane_id, valid_lane_id};
use crate::value::Json;

verus! {

/// What comes of a request for a new lane at `now_ms`.
pub open spec fn create_turn(d: DaemonView, n: Seq<char>, now_ms: nat) -> (
    DaemonView,
    LaneProgressView,
) {
    let now = stamp(now_ms);
    if n.len() == 0 {
        (d, LaneProgressView::Done(refusal(400, "name required"@)))
    } else if name_refusal(n) is Some {
        (d, LaneProgressView::Done(refusal(400, name_refusal(n)->0.words())))
    } else if create_refusal(d.reg.lanes, n) is Some {
        (d, LaneProgressView::Done(create_error_refusal(create_refusal(d.reg.lanes, n)->0)))
    } else if d.lane_uncertain {
        (d, LaneProgressView::Done(uncertain_refusal()))
    } else {
        changed_lanes(
            d,
            created_and_switched(d.reg, n, now),
            lane_ok(created_lane(d.reg, n, now)),
        )
    }
}

/// What is wrong with a lane that a request names.
pub open spec fn lane_fault(d: DaemonView, id: Seq<char>) -> Option<LaneProgressView> {
    if !valid_lane_id(id) {
        Some(LaneProgressView::Done(refusal(400, "id must match the lane ID grammar"@)))
    } else if !has_lane(d.reg.lanes, id) {
        Some(LaneProgressView::Done(refusal(404, unknown_lane(id))))
    } else if d.lane_uncertain {
        Some(LaneProgressView::Done(uncertain_refusal()))
    } else {
        None
    }
}

/// What comes of a request to activate a lane at `now_ms`.
pub open spec fn activate_turn(d: DaemonView, id: Seq<char>, now_ms: nat) -> (
    DaemonView,
    LaneProgressView,
) {
    match lane_fault(d, id) {
        Some(p) => (d, p),
        None => {
            let after = switched(d.reg, id, stamp(now_ms));
            changed_lanes(d, after, lane_ok(after.lanes[position(after.lanes, id)]))
        },
    }
}

/// What comes of a request to touch a lane at `now_ms`.
pub open spec fn touch_turn(d: DaemonView, id: Seq<char>, now_ms: nat) -> (
    DaemonView,
    LaneProgressView,
) {
    match lane_fault(d, id) {
        Some(p) => (d, p),
        None => changed_lanes(d, touched(d.reg, id, stamp(now_ms)), bare_ok()),
    }
}

impl Daemon {
    /// A request for a new lane, whose name is in the body. A name that is no lane's is refused before
    /// anything else; an existing lane is activated.
    pub fn create_lane(&mut self, body: &Json, now_ms: u128) -> (r: LaneProgress)
        ensures
            (final(self)@, r@) == create_turn(
                old(self)@,
                body@.text_or_empty("name"@),
                now_ms as nat,
            ),
    {
        let name = body.text_or_empty("name");
        if name.is_empty() {
            return LaneProgress::Done(refusal_response(400, "name required"));
        }
        match LaneRegistry::validate_create_name(name) {
            Err(e) => {
                let words = e.message();
                return LaneProgress::Done(refusal_response(400, words.as_str()));
            },
            Ok(_) => {},
        }
        match self.reg.validate_create(name) {
            Err(e) => {
                return LaneProgress::Done(lane_create_error_response(e));
            },
            Ok(_) => {},
        }
        if self.lane_persistence_uncertain {
            return LaneProgress::Done(uncertain_response());
        }
        let before = self.reg.clone();
        let now = stamp_text(now_ms);
        match self.reg.create_at(name, now.as_str()) {
            Err(e) => LaneProgress::Done(lane_create_error_response(e)),
            Ok(lane) => {
                proof {
                    lemma_created_is_reachable(before@, name@, now@);
                }
                let _ = self.reg.switch_at(lane.id.as_str(), now.as_str());
                self.changed(before, lane_response(&lane))
            },
        }
    }

    /// Refuses a lane that is not valid, not known, or not to be changed.
    fn check_lane(&self, id: &str) -> (r: Option<LaneProgress>)
        ensures
            match r {
                Some(p) => lane_fault(self@, id@) == Some(p@),
                None => lane_fault(self@, id@) is None,
            },
    {
        if !is_valid_lane_id(id) {
            return Some(
                LaneProgress::Done(refusal_response(400, "id must match the lane ID grammar")),
            );
        }
        if !self.reg.knows(id) {
            let words = unknown_lane_text(id);
            return Some(LaneProgress::Done(refusal_response(404, words.as_str())));
        }
        if self.lane_persistence_uncertain {
            return Some(LaneProgress::Done(uncertain_response()));
        }
        None
    }

    /// A request to activate the lane that the body names.
    pub fn set_active(&mut self, body: &Json, now_ms: u128) -> (r: LaneProgress)
        ensures
            (final(self)@, r@) == activate_turn(
                old(self)@,
                body@.text_or_empty("id"@),
                now_ms as nat,
            ),
    {
        let id = body.text_or_empty("id");
        match self.check_lane(id) {
            Some(p) => {
                return p;
            },
            None => {},
        }
        let before = self.reg.clone();
        let now = stamp_text(now_ms);
        match self.reg.switch_at(id, now.as_str()) {
            Some(lane) => self.changed(before, lane_response(&lane)),
            None => {
                let words = unknown_lane_text(id);
                LaneProgress::Done(refusal_response(404, words.as_str()))
            },
        }
    }

    /// A request to touch the lane that the body names.
    pub fn touch(&mut self, body: &Json, now_ms: u128) -> (r: LaneProgress)
        ensures
            (final(self)@, r@) == touch_turn(
                old(self)@,
                body@.text_or_empty("id"@),
                now_ms as nat,
            ),
    {
        let id = body.text_or_empty("id");
        match self.check_lane(id) {
            Some(p) => {
                return p;
            },
            None => {},
        }
        let before = self.reg.clone();
        let now = stamp_text(now_ms);
        let _ = self.reg.touch_at(id, now.as_str());
        self.changed(before, ok_response())
    }
}

/// Touching a lane never moves the revision, so it works at the last one too.
pub proof fn law_touch_keeps_the_revision(d: DaemonView, id: Seq<char>, now_ms: nat)
    ensures
        touch_turn(d, id, now_ms).0.revision == d.revision,
{
    let after = touched(d.reg, id, stamp(now_ms));
    crate::lanes::lemma_position(d.reg.lanes, id);
    if lane_fault(d, id) is None {
        assert(!crate::daemon::state::selection_changed(d.reg, after));
    }
}

} // verus!
