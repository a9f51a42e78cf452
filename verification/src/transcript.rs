//! The rolling transcript of each lane: what was said last, and what a forked
//! lane is told of it.
use vstd::prelude::*;
use vstd::string::*;

use crate::clock::{clock_ms, epoch_ms};
use crate::text::{blank, is_blank, join_from, joined, same_text, views};

verus! {

/// Most turns that are kept of one lane.
pub const MAX_TURNS_PER_LANE: usize = 40;

/// One thing that was said.
#[derive(Debug)]
pub struct Turn {
    /// `user` or `assistant`.
    pub role: String,
    pub text: String,
    /// Epoch seconds.
    pub ts: u64,
}

/// A turn as a value.
#[verifier::ext_equal]
pub struct TurnView {
    pub role: Seq<char>,
    pub text: Seq<char>,
    pub ts: u64,
}

/// What was said at `ts`.
pub open spec fn turn_at(role: Seq<char>, text: Seq<char>, ts: u64) -> TurnView {
    TurnView { role, text, ts }
}

impl View for Turn {
    type V = TurnView;

    open spec fn view(&self) -> TurnView {
        TurnView { role: self.role@, text: self.text@, ts: self.ts }
    }
}

impl Clone for Turn {
    fn clone(&self) -> (r: Self)
        ensures
            r@ == self@,
    {
        Turn { role: self.role.clone(), text: self.text.clone(), ts: self.ts }
    }
}

/// The values of a run of turns.
pub open spec fn turn_views(v: Seq<Turn>) -> Seq<TurnView> {
    Seq::new(v.len(), |i: int| v[i]@)
}

/// What was said on one lane, oldest first.
#[derive(Debug)]
pub struct LaneTurns {
    pub lane_id: String,
    pub turns: Vec<Turn>,
}

/// What was said on each lane.
#[derive(Debug)]
pub struct TranscriptStore {
    pub lanes: Vec<LaneTurns>,
}

/// Index of the first lane with this identifier, the number of lanes where
/// there is none.
pub open spec fn lane_position(v: Seq<LaneTurns>, lane_id: Seq<char>, i: int) -> int
    decreases v.len() - i,
{
    if i < 0 || i >= v.len() {
        v.len() as int
    } else if v[i].lane_id@ == lane_id {
        i
    } else {
        lane_position(v, lane_id, i + 1)
    }
}

/// What was said on a lane.
pub open spec fn turns_of(v: Seq<LaneTurns>, lane_id: Seq<char>) -> Seq<TurnView> {
    let p = lane_position(v, lane_id, 0);
    if p < v.len() {
        turn_views(v[p].turns@)
    } else {
        Seq::empty()
    }
}

/// The last `n` of a run of turns.
pub open spec fn last_turns(v: Seq<TurnView>, n: nat) -> Seq<TurnView> {
    if v.len() > n {
        v.skip(v.len() - n)
    } else {
        v
    }
}

proof fn lemma_lane_position(v: Seq<LaneTurns>, lane_id: Seq<char>, i: int)
    requires
        0 <= i <= v.len(),
    ensures
        i <= lane_position(v, lane_id, i) <= v.len(),
        lane_position(v, lane_id, i) < v.len() ==> v[lane_position(v, lane_id, i)].lane_id@
            == lane_id,
        forall|k: int|
            i <= k < lane_position(v, lane_id, i) ==> (#[trigger] v[k]).lane_id@ != lane_id,
    decreases v.len() - i,
{
    if i < v.len() {
        lemma_lane_position(v, lane_id, i + 1);
    }
}

proof fn lemma_lane_position_is(v: Seq<LaneTurns>, lane_id: Seq<char>, p: int)
    requires
        0 <= p <= v.len(),
        p < v.len() ==> v[p].lane_id@ == lane_id,
        forall|k: int| 0 <= k < p ==> (#[trigger] v[k]).lane_id@ != lane_id,
    ensures
        lane_position(v, lane_id, 0) == p,
{
    lemma_lane_position(v, lane_id, 0);
    let q = lane_position(v, lane_id, 0);
    if q < p {
        assert(v[q].lane_id@ != lane_id);
    }
    if p < q {
        assert(v[p].lane_id@ != lane_id);
    }
}

impl Default for TranscriptStore {
    fn default() -> (r: Self)
        ensures
            r.lanes@.len() == 0,
    {
        TranscriptStore { lanes: Vec::new() }
    }
}

impl TranscriptStore {
    /// What was said on a lane.
    pub open spec fn said(&self, lane_id: Seq<char>) -> Seq<TurnView> {
        turns_of(self.lanes@, lane_id)
    }

    fn find(&self, lane_id: &str) -> (p: usize)
        ensures
            p == lane_position(self.lanes@, lane_id@, 0),
            p <= self.lanes@.len(),
    {
        let mut i: usize = 0;
        while i < self.lanes.len()
            invariant
                i <= self.lanes@.len(),
                lane_position(self.lanes@, lane_id@, 0) == lane_position(
                    self.lanes@,
                    lane_id@,
                    i as int,
                ),
            decreases self.lanes@.len() - i,
        {
            if same_text(self.lanes[i].lane_id.as_str(), lane_id) {
                return i;
            }
            i = i + 1;
        }
        i
    }

    /// Adds what was said at `ts` on a lane; the oldest turns give way, and
    /// blank text is not kept. Other lanes are left alone.
    pub fn push_at(&mut self, lane_id: &str, role: &str, text: &str, ts: u64)
        ensures
            final(self).said(lane_id@) == (if blank(text@) {
                old(self).said(lane_id@)
            } else {
                last_turns(
                    old(self).said(lane_id@).push(turn_at(role@, text@, ts)),
                    MAX_TURNS_PER_LANE as nat,
                )
            }),
            forall|other: Seq<char>|
                other != lane_id@ ==> #[trigger] final(self).said(other) == old(self).said(other),
    {
        if is_blank(text) {
            return;
        }
        let turn = Turn { role: role.to_string(), text: text.to_string(), ts };
        let ghost t = turn@;
        assert(t =~= turn_at(role@, text@, ts));
        let ghost before = self.lanes@;
        let p: usize = self.find(lane_id);
        proof {
            lemma_lane_position(before, lane_id@, 0);
        }
        if p == self.lanes.len() {
            let mut turns: Vec<Turn> = Vec::new();
            turns.push(turn);
            assert(turn_views(turns@) =~= Seq::<TurnView>::empty().push(t));
            self.lanes.push(LaneTurns { lane_id: lane_id.to_string(), turns });
            proof {
                lemma_lane_position_is(self.lanes@, lane_id@, p as int);
                assert forall|other: Seq<char>| other != lane_id@ implies #[trigger] self.said(
                    other,
                ) == old(self).said(other) by {
                    lemma_lane_position(before, other, 0);
                    let q = lane_position(before, other, 0);
                    if q < before.len() {
                        lemma_lane_position_is(self.lanes@, other, q);
                    } else {
                        lemma_lane_position_is(self.lanes@, other, self.lanes@.len() as int);
                    }
                }
            }
            return;
        }
        let ghost had = turn_views(before[p as int].turns@);
        self.lanes[p].turns.push(turn);
        assert(turn_views(self.lanes@[p as int].turns@) =~= had.push(t));
        if self.lanes[p].turns.len() > MAX_TURNS_PER_LANE {
            let excess: usize = self.lanes[p].turns.len() - MAX_TURNS_PER_LANE;
            let kept = self.lanes[p].turns.split_off(excess);
            self.lanes[p].turns = kept;
            assert(turn_views(self.lanes@[p as int].turns@) =~= had.push(t).skip(excess as int));
        }
        proof {
            lemma_lane_position_is(self.lanes@, lane_id@, p as int);
            assert forall|other: Seq<char>| other != lane_id@ implies #[trigger] self.said(other)
                == old(self).said(other) by {
                lemma_lane_position(before, other, 0);
                let q = lane_position(before, other, 0);
                lemma_lane_position_is(self.lanes@, other, q);
            }
        }
    }

    /// Adds what is said now on a lane.
    pub fn push(&mut self, lane_id: &str, role: &str, text: &str)
        ensures
            exists|ts: u64|
                final(self).said(lane_id@) == (if blank(text@) {
                    old(self).said(lane_id@)
                } else {
                    last_turns(
                        old(self).said(lane_id@).push(#[trigger] turn_at(role@, text@, ts)),
                        MAX_TURNS_PER_LANE as nat,
                    )
                }),
            forall|other: Seq<char>|
                other != lane_id@ ==> #[trigger] final(self).said(other) == old(self).said(other),
    {
        let ts: u64 = clock_ms(epoch_ms() / 1000);
        self.push_at(lane_id, role, text, ts);
    }

    /// The last `n` turns of a lane, oldest first.
    pub fn recent(&self, lane_id: &str, n: usize) -> (r: Vec<Turn>)
        ensures
            turn_views(r@) == last_turns(self.said(lane_id@), n as nat),
    {
        let p: usize = self.find(lane_id);
        let mut out: Vec<Turn> = Vec::new();
        if p == self.lanes.len() {
            assert(turn_views(out@) =~= last_turns(self.said(lane_id@), n as nat));
            return out;
        }
        let all = &self.lanes[p].turns;
        let from: usize = if all.len() > n {
            all.len() - n
        } else {
            0
        };
        for i in from..all.len()
            invariant
                from <= i <= all@.len(),
                turn_views(out@) == turn_views(all@).subrange(from as int, i as int),
        {
            let t = all[i].clone();
            let ghost v = t@;
            let ghost before = out@;
            out.push(t);
            assert(turn_views(out@) =~= turn_views(before).push(v));
            assert(turn_views(out@) =~= turn_views(all@).subrange(from as int, i + 1));
        }
        assert(turn_views(out@) =~= last_turns(self.said(lane_id@), n as nat));
        out
    }
}

// ---- forks ----------------------------------------------------------------------

/// A turn in one line.
pub open spec fn turn_line(t: TurnView) -> Seq<char> {
    t.role + ": "@ + t.text
}

/// The turns, one to a line.
pub open spec fn turn_lines(v: Seq<TurnView>) -> Seq<char> {
    joined(Seq::new(v.len(), |i: int| turn_line(v[i])), "\n"@)
}

fn turns_text(turns: &Vec<Turn>) -> (r: String)
    ensures
        r@ == turn_lines(turn_views(turns@)),
{
    let ghost all = turn_views(turns@);
    let ghost lines = Seq::new(all.len(), |i: int| turn_line(all[i]));
    let mut out: Vec<String> = Vec::new();
    for i in 0..turns.len()
        invariant
            all == turn_views(turns@),
            lines == Seq::new(all.len(), |i: int| turn_line(all[i])),
            views(out@) == lines.take(i as int),
    {
        assert(all[i as int] == turns@[i as int]@);
        let mut s = turns[i].role.clone();
        s.append(": ");
        s.append(turns[i].text.as_str());
        let ghost before = out@;
        let ghost line = s@;
        out.push(s);
        assert(views(out@) =~= views(before).push(line));
        assert(views(out@) =~= lines.take(i + 1));
    }
    assert(views(out@) =~= lines);
    assert(views(out@).skip(0) =~= lines);
    join_from(&out, 0, "\n")
}

/// What the transcript of a forked lane begins with; nothing where nothing was
/// said before.
pub open spec fn fork_context(
    lane_name: Seq<char>,
    source: Seq<char>,
    turns: Seq<TurnView>,
) -> Option<Seq<char>> {
    if turns.len() == 0 {
        None
    } else {
        Some(
            "Context from "@ + lane_name + " (forked):\n"@ + source + "\n---\n"@ + turn_lines(
                turns,
            ),
        )
    }
}

/// What the transcript of a forked lane begins with.
pub fn fork_context_text(lane_name: &str, source: &str, turns: &Vec<Turn>) -> (r: Option<String>)
    ensures
        crate::text::opt_view(r) == fork_context(lane_name@, source@, turn_views(turns@)),
{
    assert(turn_views(turns@).len() == turns@.len());
    if turns.len() == 0 {
        return None;
    }
    let mut s = "Context from ".to_string();
    s.append(lane_name);
    s.append(" (forked):\n");
    s.append(source);
    s.append("\n---\n");
    let t = turns_text(turns);
    s.append(t.as_str());
    Some(s)
}

/// What the gateway is told of a forked lane.
pub open spec fn fork_message(source: Seq<char>, turns: Seq<TurnView>) -> Seq<char> {
    "This lane continues from '"@ + source + "'. Recent context:\n"@ + turn_lines(turns)
}

/// What the gateway is told of a forked lane.
pub fn fork_message_text(source: &str, turns: &Vec<Turn>) -> (r: String)
    ensures
        r@ == fork_message(source@, turn_views(turns@)),
{
    let mut s = "This lane continues from '".to_string();
    s.append(source);
    s.append("'. Recent context:\n");
    let t = turns_text(turns);
    s.append(t.as_str());
    s
}

/// A lane never keeps more turns than its limit, and the newest one is always
/// among them.
pub proof fn law_transcript_is_bounded(v: Seq<TurnView>, t: TurnView)
    ensures
        last_turns(v.push(t), MAX_TURNS_PER_LANE as nat).len() <= MAX_TURNS_PER_LANE,
        last_turns(v.push(t), MAX_TURNS_PER_LANE as nat).last() == t,
{
}

/// The last turns are the end of what was said, in its order: as many as are
/// asked for, or all where there are fewer.
pub proof fn law_last_turns_are_the_newest(v: Seq<TurnView>, n: nat, i: int)
    requires
        0 <= i < last_turns(v, n).len(),
    ensures
        last_turns(v, n).len() == (if v.len() < n {
            v.len()
        } else {
            n
        }),
        last_turns(v, n)[i] == v[v.len() - last_turns(v, n).len() + i],
{
}

/// The lines of a transcript: one for each turn, who said it and what, oldest
/// first.
pub proof fn law_turn_lines_are_what_was_said(v: Seq<TurnView>, t: TurnView)
    ensures
        turn_lines(seq![t]) == t.role + ": "@ + t.text,
        v.len() > 0 ==> turn_lines(v.push(t)) == turn_lines(v) + "\n"@ + (t.role + ": "@
            + t.text),
{
    let one = Seq::new(1, |i: int| turn_line(seq![t][i]));
    assert(one[0] == t.role + ": "@ + t.text);
    let w = v.push(t);
    let lines = Seq::new(w.len(), |i: int| turn_line(w[i]));
    let before = Seq::new(v.len(), |i: int| turn_line(v[i]));
    assert(lines.drop_last() =~= before);
    assert(lines.last() == turn_line(t));
}

/// What a fork is told begins with the lane that it comes from and ends with what
/// was said there; without anything said there is no context.
pub proof fn law_fork_texts_hold_the_context(
    lane_name: Seq<char>,
    source: Seq<char>,
    turns: Seq<TurnView>,
)
    ensures
        fork_message(source, turns) == "This lane continues from '"@ + source
            + "'. Recent context:\n"@ + turn_lines(turns),
        turns.len() == 0 ==> fork_context(lane_name, source, turns) is None,
        turns.len() > 0 ==> fork_context(lane_name, source, turns) == Some(
            "Context from "@ + lane_name + " (forked):\n"@ + source + "\n---\n"@ + turn_lines(
                turns,
            ),
        ),
{
}

} // verus!
