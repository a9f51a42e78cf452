//! The meta grammar: from a transcript and a registry to an action, and the
//! action's effect with its spoken confirmation.
use vstd::prelude::*;
use vstd::string::*;

use crate::clock::{age_summary_at, age_words, epoch_ms, stamp, stamp_text};
use crate::json::{json_string, quote};
use crate::lanes::{
    active_lane, create_refusal, created, created_lane, reachable, switched, Lane,
    LaneCreateError, LaneRegistry, LaneView, RegistryView, LANE_CAPACITY_ERROR_MESSAGE,
};
use crate::lookup::{match_lane, meant_lane, normalize, normalized};
use crate::text::{
    ascii_lower, chars_of, contains, has_prefix, join_from, joined, lowercase, lowercased, occurs,
    pieces, same_text, split, starts_with, text_of, trim, trim_start, trimmed, trimmed_start, views,
};

verus! {

/// What an utterance to the steering plane asks for.
#[derive(Debug)]
pub enum MetaAction {
    Switch(Lane),
    List,
    New(String),
    Brief(Option<Lane>),
    /// "note that X": X is kept as a note and never said to an agent.
    Note(String),
    /// "fork [into X]": a new lane that carries this lane's context.
    Fork(Option<String>),
    Unknown,
}

/// An action as a value.
pub enum ActionView {
    Switch(LaneView),
    List,
    New(Seq<char>),
    Brief(Option<LaneView>),
    Note(Seq<char>),
    Fork(Option<Seq<char>>),
    Unknown,
}

impl View for MetaAction {
    type V = ActionView;

    open spec fn view(&self) -> ActionView {
        match self {
            MetaAction::Switch(lane) => ActionView::Switch(lane@),
            MetaAction::List => ActionView::List,
            MetaAction::New(name) => ActionView::New(name@),
            MetaAction::Brief(Some(lane)) => ActionView::Brief(Some(lane@)),
            MetaAction::Brief(None) => ActionView::Brief(None),
            MetaAction::Note(text) => ActionView::Note(text@),
            MetaAction::Fork(Some(name)) => ActionView::Fork(Some(name@)),
            MetaAction::Fork(None) => ActionView::Fork(None),
            MetaAction::Unknown => ActionView::Unknown,
        }
    }
}

impl Clone for MetaAction {
    fn clone(&self) -> (r: Self)
        ensures
            r@ == self@,
    {
        match self {
            MetaAction::Switch(lane) => MetaAction::Switch(lane.clone()),
            MetaAction::List => MetaAction::List,
            MetaAction::New(name) => MetaAction::New(name.clone()),
            MetaAction::Brief(Some(lane)) => MetaAction::Brief(Some(lane.clone())),
            MetaAction::Brief(None) => MetaAction::Brief(None),
            MetaAction::Note(text) => MetaAction::Note(text.clone()),
            MetaAction::Fork(Some(name)) => MetaAction::Fork(Some(name.clone())),
            MetaAction::Fork(None) => MetaAction::Fork(None),
            MetaAction::Unknown => MetaAction::Unknown,
        }
    }
}

// ---- notes --------------------------------------------------------------------

/// Whether `s` begins with `p`, a lower-case text, without regard to ASCII case.
pub open spec fn has_prefix_ci(s: Seq<char>, p: Seq<char>) -> bool {
    p.len() <= s.len() && forall|i: int| 0 <= i < p.len() ==> ascii_lower(#[trigger] s[i]) == p[i]
}

/// What follows a prefix, without the white space before it.
pub open spec fn strip_ci(s: Seq<char>, p: Seq<char>) -> Option<Seq<char>> {
    if has_prefix_ci(s, p) {
        Some(trimmed_start(s.skip(p.len() as int)))
    } else {
        None
    }
}

/// What follows the first of the note phrases that the text begins with, the
/// longer phrases first.
pub open spec fn note_content(s: Seq<char>) -> Option<Seq<char>> {
    if strip_ci(s, "keep in mind that "@) is Some {
        strip_ci(s, "keep in mind that "@)
    } else if strip_ci(s, "remember that "@) is Some {
        strip_ci(s, "remember that "@)
    } else if strip_ci(s, "note that "@) is Some {
        strip_ci(s, "note that "@)
    } else if strip_ci(s, "remember "@) is Some {
        strip_ci(s, "remember "@)
    } else if strip_ci(s, "note "@) is Some {
        strip_ci(s, "note "@)
    } else {
        strip_ci(s, "keep "@)
    }
}

/// Whether the utterance begins with a note word and goes on.
pub open spec fn is_note(raw: Seq<char>) -> bool {
    let words = pieces(lowercased(trimmed(raw)), ' ');
    &&& words.len() > 1
    &&& (words[0] == "note"@ || words[0] == "remember"@ || words[0] == "keep"@)
}

/// The note in an utterance, in the casing it was said in; nothing where only
/// the phrase was said.
pub open spec fn note_action(raw: Seq<char>) -> ActionView {
    match note_content(trimmed(raw)) {
        Some(c) => if trimmed(c).len() > 0 {
            ActionView::Note(trimmed(c))
        } else {
            ActionView::Unknown
        },
        None => ActionView::Unknown,
    }
}

fn ascii_lower_of(c: char) -> (r: char)
    ensures
        r == ascii_lower(c),
{
    if 'A' <= c && c <= 'Z' {
        ((c as u8) + 32) as char
    } else {
        c
    }
}

fn strip_ci_text(s: &str, p: &str) -> (r: Option<String>)
    ensures
        match r {
            Some(t) => strip_ci(s@, p@) == Some(t@),
            None => strip_ci(s@, p@) is None,
        },
{
    let a = chars_of(s);
    let b = chars_of(p);
    if a.len() < b.len() {
        return None;
    }
    for i in 0..b.len()
        invariant
            a@ == s@,
            b@ == p@,
            b@.len() <= a@.len(),
            forall|k: int| 0 <= k < i ==> ascii_lower(#[trigger] s@[k]) == p@[k],
    {
        if ascii_lower_of(a[i]) != b[i] {
            assert(ascii_lower(s@[i as int]) != p@[i as int]);
            return None;
        }
    }
    let rest = text_of(&a, b.len(), a.len());
    assert(rest@ =~= s@.skip(p@.len() as int));
    Some(trim_start(rest.as_str()).to_string())
}

fn note_content_text(s: &str) -> (r: Option<String>)
    ensures
        match r {
            Some(t) => note_content(s@) == Some(t@),
            None => note_content(s@) is None,
        },
{
    match strip_ci_text(s, "keep in mind that ") {
        Some(t) => {
            return Some(t);
        },
        None => {},
    }
    match strip_ci_text(s, "remember that ") {
        Some(t) => {
            return Some(t);
        },
        None => {},
    }
    match strip_ci_text(s, "note that ") {
        Some(t) => {
            return Some(t);
        },
        None => {},
    }
    match strip_ci_text(s, "remember ") {
        Some(t) => {
            return Some(t);
        },
        None => {},
    }
    match strip_ci_text(s, "note ") {
        Some(t) => {
            return Some(t);
        },
        None => {},
    }
    strip_ci_text(s, "keep ")
}

fn parse_note(raw: &str) -> (r: Option<MetaAction>)
    ensures
        match r {
            Some(action) => is_note(raw@) && action@ == note_action(raw@),
            None => !is_note(raw@),
        },
{
    let raw_trim = trim(raw);
    let folded = lowercase(raw_trim);
    let words = split(folded.as_str(), ' ');
    assert(words@.len() == views(words@).len());
    assert(words@[0]@ == views(words@)[0]);
    if words.len() > 1 && (same_text(words[0].as_str(), "note") || same_text(
        words[0].as_str(),
        "remember",
    ) || same_text(words[0].as_str(), "keep")) {
        match note_content_text(raw_trim) {
            Some(c) => {
                let t = trim(c.as_str());
                if t.is_empty() {
                    Some(MetaAction::Unknown)
                } else {
                    Some(MetaAction::Note(t.to_string()))
                }
            },
            None => Some(MetaAction::Unknown),
        }
    } else {
        None
    }
}

// ---- the rest of the grammar ----------------------------------------------------

/// Whether a normalized utterance asks for the list of conversations.
pub open spec fn is_list(text: Seq<char>) -> bool {
    &&& {
        ||| has_prefix(text, "list"@)
        ||| has_prefix(text, "show"@)
        ||| has_prefix(text, "what are the"@)
        ||| has_prefix(text, "what conversation"@)
        ||| has_prefix(text, "which conversation"@)
    }
    &&& (occurs(text, "conversation"@) || occurs(text, "lane"@))
}

/// The words from `i` on, with single spaces between them.
pub open spec fn words_from(words: Seq<Seq<char>>, i: int) -> Seq<char> {
    joined(words.skip(i), " "@)
}

/// Index of the first of three words, the number of words where none occurs.
pub open spec fn first_of(
    words: Seq<Seq<char>>,
    a: Seq<char>,
    b: Seq<char>,
    c: Seq<char>,
    i: int,
) -> int
    decreases words.len() - i,
{
    if i < 0 || i >= words.len() {
        words.len() as int
    } else if words[i] == a || words[i] == b || words[i] == c {
        i
    } else {
        first_of(words, a, b, c, i + 1)
    }
}

/// What a fork is called: nothing said for "fork", X for "fork into X".
pub open spec fn fork_name(words: Seq<Seq<char>>) -> Option<Option<Seq<char>>> {
    if words[0] != "fork"@ {
        None
    } else if words.len() == 1 {
        Some(None)
    } else if words.len() > 2 && words[1] == "into"@ {
        Some(Some(words_from(words, 2)))
    } else {
        None
    }
}

/// The name in "new|start|create .. conversation|lane|chat [for|about|called|
/// named|to] X".
pub open spec fn new_name(words: Seq<Seq<char>>) -> Option<Seq<char>> {
    let k = first_of(words, "conversation"@, "lane"@, "chat"@, 0);
    if !(words[0] == "new"@ || words[0] == "start"@ || words[0] == "create"@) || k >= words.len() {
        None
    } else {
        let after = k + 1;
        let name = if after < words.len() && (words[after] == "for"@ || words[after] == "about"@
            || words[after] == "called"@ || words[after] == "named"@ || words[after] == "to"@) {
            words_from(words, after + 1)
        } else {
            words_from(words, after)
        };
        if name.len() > 0 {
            Some(name)
        } else {
            None
        }
    }
}

/// Whether a normalized utterance asks for a briefing.
pub open spec fn is_brief(text: Seq<char>, words: Seq<Seq<char>>) -> bool {
    words[0] == "brief"@ || text == "catch me up"@ || words[0] == "status"@
}

/// What a briefing is asked about, empty where nothing is named.
pub open spec fn brief_target(words: Seq<Seq<char>>) -> Seq<char> {
    let p = first_of(words, "on"@, "about"@, "for"@, 0);
    if p < words.len() {
        words_from(words, p + 1)
    } else {
        Seq::<char>::empty()
    }
}

/// What follows a verb of movement, nothing where there is no such verb.
pub open spec fn switch_target(words: Seq<Seq<char>>) -> Option<Seq<char>> {
    if words[0] == "go"@ {
        if words.len() > 1 && words[1] == "to"@ {
            Some(words_from(words, 2))
        } else {
            Some(words_from(words, 1))
        }
    } else if words[0] == "switch"@ || words[0] == "work"@ || words[0] == "move"@ || words[0]
        == "jump"@ {
        Some(words_from(words, 1))
    } else {
        None
    }
}

/// The lane that a verb of movement leads to.
pub open spec fn switch_lane(words: Seq<Seq<char>>, lanes: Seq<LaneView>) -> Option<LaneView> {
    match switch_target(words) {
        Some(target) => if target.len() > 0 {
            meant_lane(target, lanes)
        } else {
            None
        },
        None => None,
    }
}

/// The meaning of an utterance among these lanes.
pub open spec fn meaning(raw: Seq<char>, lanes: Seq<LaneView>) -> ActionView {
    let text = normalized(raw);
    let words = pieces(text, ' ');
    if text.len() == 0 {
        ActionView::Unknown
    } else if is_note(raw) {
        note_action(raw)
    } else if is_list(text) {
        ActionView::List
    } else if fork_name(words) is Some {
        ActionView::Fork(fork_name(words)->0)
    } else if new_name(words) is Some {
        ActionView::New(new_name(words)->0)
    } else if is_brief(text, words) {
        ActionView::Brief(meant_lane(brief_target(words), lanes))
    } else if switch_lane(words, lanes) is Some {
        ActionView::Switch(switch_lane(words, lanes)->0)
    } else {
        match meant_lane(text, lanes) {
            Some(lane) => ActionView::Switch(lane),
            None => ActionView::Unknown,
        }
    }
}

fn find_first_of(words: &Vec<String>, a: &str, b: &str, c: &str) -> (p: usize)
    ensures
        p == first_of(views(words@), a@, b@, c@, 0),
        p <= words@.len(),
{
    let mut i: usize = 0;
    while i < words.len()
        invariant
            i <= words@.len(),
            first_of(views(words@), a@, b@, c@, 0) == first_of(
                views(words@),
                a@,
                b@,
                c@,
                i as int,
            ),
        decreases words@.len() - i,
    {
        let w = words[i].as_str();
        assert(w@ == views(words@)[i as int]);
        if same_text(w, a) || same_text(w, b) || same_text(w, c) {
            return i;
        }
        i = i + 1;
    }
    i
}

fn parse_list(text: &str) -> (r: bool)
    ensures
        r == is_list(text@),
{
    (starts_with(text, "list") || starts_with(text, "show") || starts_with(text, "what are the")
        || starts_with(text, "what conversation") || starts_with(text, "which conversation")) && (
    contains(text, "conversation") || contains(text, "lane"))
}

fn parse_fork(words: &Vec<String>) -> (r: Option<Option<String>>)
    requires
        words@.len() > 0,
    ensures
        match r {
            Some(Some(name)) => fork_name(views(words@)) == Some(Some(name@)),
            Some(None) => fork_name(views(words@)) == Some(None::<Seq<char>>),
            None => fork_name(views(words@)) is None,
        },
{
    let ghost w = views(words@);
    assert(w.len() == words@.len());
    assert(w[0] == words@[0]@);
    if !same_text(words[0].as_str(), "fork") {
        return None;
    }
    if words.len() == 1 {
        return Some(None);
    }
    assert(w[1] == words@[1]@);
    if words.len() > 2 && same_text(words[1].as_str(), "into") {
        return Some(Some(join_from(words, 2, " ")));
    }
    None
}

fn parse_new(words: &Vec<String>) -> (r: Option<String>)
    requires
        words@.len() > 0,
    ensures
        match r {
            Some(name) => new_name(views(words@)) == Some(name@),
            None => new_name(views(words@)) is None,
        },
{
    let ghost w = views(words@);
    assert(w.len() == words@.len());
    assert(w[0] == words@[0]@);
    let first = words[0].as_str();
    if !(same_text(first, "new") || same_text(first, "start") || same_text(first, "create")) {
        return None;
    }
    let k: usize = find_first_of(words, "conversation", "lane", "chat");
    if k >= words.len() {
        return None;
    }
    let after: usize = k + 1;
    let name: String;
    if after < words.len() {
        let p = words[after].as_str();
        assert(w[after as int] == p@);
        if same_text(p, "for") || same_text(p, "about") || same_text(p, "called") || same_text(
            p,
            "named",
        ) || same_text(p, "to") {
            name = join_from(words, after + 1, " ");
        } else {
            name = join_from(words, after, " ");
        }
    } else {
        name = join_from(words, after, " ");
    }
    if name.as_str().is_empty() {
        None
    } else {
        Some(name)
    }
}

fn parse_switch(words: &Vec<String>) -> (r: Option<String>)
    requires
        words@.len() > 0,
    ensures
        match r {
            Some(target) => switch_target(views(words@)) == Some(target@),
            None => switch_target(views(words@)) is None,
        },
{
    let ghost w = views(words@);
    assert(w.len() == words@.len());
    assert(w[0] == words@[0]@);
    let first = words[0].as_str();
    if same_text(first, "go") {
        if words.len() > 1 {
            assert(w[1] == words@[1]@);
            if same_text(words[1].as_str(), "to") {
                return Some(join_from(words, 2, " "));
            }
        }
        return Some(join_from(words, 1, " "));
    }
    if same_text(first, "switch") || same_text(first, "work") || same_text(first, "move")
        || same_text(first, "jump") {
        return Some(join_from(words, 1, " "));
    }
    None
}

/// The meaning of an utterance. A lane name is taken only on the registry's
/// evidence, so that ordinary speech is not intercepted.
pub fn parse_meta(raw: &str, reg: &LaneRegistry) -> (r: MetaAction)
    ensures
        r@ == meaning(raw@, reg@.lanes),
{
    let text = normalize(raw);
    if text.as_str().is_empty() {
        return MetaAction::Unknown;
    }
    match parse_note(raw) {
        Some(action) => {
            return action;
        },
        None => {},
    }
    if parse_list(text.as_str()) {
        return MetaAction::List;
    }
    let words = split(text.as_str(), ' ');
    match parse_fork(&words) {
        Some(name) => {
            return MetaAction::Fork(name);
        },
        None => {},
    }
    match parse_new(&words) {
        Some(name) => {
            return MetaAction::New(name);
        },
        None => {},
    }
    assert(views(words@)[0] == words@[0]@);
    if same_text(words[0].as_str(), "brief") || same_text(text.as_str(), "catch me up")
        || same_text(words[0].as_str(), "status") {
        let p: usize = find_first_of(&words, "on", "about", "for");
        let target = if p < words.len() {
            join_from(&words, p + 1, " ")
        } else {
            String::new()
        };
        assert(target@ =~= brief_target(views(words@)));
        return MetaAction::Brief(match_lane(target.as_str(), reg));
    }
    match parse_switch(&words) {
        Some(target) => {
            if !target.as_str().is_empty() {
                match match_lane(target.as_str(), reg) {
                    Some(lane) => {
                        return MetaAction::Switch(lane);
                    },
                    None => {},
                }
            }
        },
        None => {},
    }
    match match_lane(text.as_str(), reg) {
        Some(lane) => MetaAction::Switch(lane),
        None => MetaAction::Unknown,
    }
}

/// Whatever is said, the lane of a switch is a lane of the registry.
pub proof fn law_switch_is_to_a_known_lane(raw: Seq<char>, lanes: Seq<LaneView>)
    ensures
        meaning(raw, lanes) is Switch ==> lanes.contains(meaning(raw, lanes)->Switch_0),
{
    let text = normalized(raw);
    let words = pieces(text, ' ');
    crate::lookup::law_lookup_requires_evidence(text, lanes);
    if switch_target(words) is Some {
        crate::lookup::law_lookup_requires_evidence(switch_target(words)->0, lanes);
    }
}

/// A note is never empty.
pub proof fn law_notes_have_content(raw: Seq<char>, lanes: Seq<LaneView>)
    ensures
        meaning(raw, lanes) is Note ==> meaning(raw, lanes)->Note_0.len() > 0,
{
}

// ---- effects --------------------------------------------------------------------

/// A lane's name in the spoken list.
pub open spec fn listed_name(lane: LaneView, active_id: Seq<char>) -> Seq<char> {
    if lane.id == active_id {
        lane.name + " (active)"@
    } else {
        lane.name
    }
}

/// The names in the spoken list.
pub open spec fn listed_names(reg: RegistryView) -> Seq<Seq<char>> {
    Seq::new(reg.lanes.len(), |i: int| listed_name(reg.lanes[i], reg.active_id))
}

/// The lane identifier whose briefing names no project.
pub const DIRECT_BRIEF_ID: &'static str = "telepathos:direct";

/// The registry after a create and a switch to the lane, in one instant.
pub open spec fn created_and_switched(
    reg: RegistryView,
    name: Seq<char>,
    now: Seq<char>,
) -> RegistryView {
    switched(created(reg, name, now), created_lane(reg, name, now).id, now)
}

/// What a fork of the active lane is called.
pub open spec fn fork_lane_name(reg: RegistryView, name: Option<Seq<char>>) -> Seq<char> {
    match name {
        Some(n) => n,
        None => "fork-"@ + active_lane(reg).name,
    }
}

/// The registry after an action at `now_ms`.
pub open spec fn after_action(reg: RegistryView, action: ActionView, now_ms: nat) -> RegistryView {
    let now = stamp(now_ms);
    match action {
        ActionView::Switch(lane) => if reachable(reg, lane.id) {
            switched(reg, lane.id, now)
        } else {
            reg
        },
        ActionView::New(name) => if create_refusal(reg.lanes, name) is None {
            created_and_switched(reg, name, now)
        } else {
            reg
        },
        ActionView::Fork(name) => {
            let n = fork_lane_name(reg, name);
            if create_refusal(reg.lanes, n) is None {
                created_and_switched(reg, n, now)
            } else {
                reg
            }
        },
        _ => reg,
    }
}

/// The spoken confirmation of an action at `now_ms`.
pub open spec fn spoken(reg: RegistryView, action: ActionView, now_ms: nat) -> Seq<char> {
    let now = stamp(now_ms);
    match action {
        ActionView::Switch(lane) => "Switched to "@ + lane.name + "."@,
        ActionView::List => "Conversations: "@ + joined(listed_names(reg), ", "@) + "."@,
        ActionView::New(name) => match create_refusal(reg.lanes, name) {
            None => "Created "@ + created_lane(reg, name, now).name + ". You're in it."@,
            Some(LaneCreateError::CapacityReached) => LANE_CAPACITY_ERROR_MESSAGE@,
            Some(_) => "I couldn't create that conversation name. Please use a shorter name."@,
        },
        ActionView::Brief(lane) => {
            let l = match lane {
                Some(l) => l,
                None => active_lane(reg),
            };
            if l.id == DIRECT_BRIEF_ID@ {
                "Direct line to Hermes. No project context."@
            } else {
                "Lane "@ + l.name + ". Last active "@ + age_words(l.last_active, now_ms)
                    + ". Full briefing arrives with the Hermes connector."@
            }
        },
        ActionView::Note(_) => "Noted."@,
        ActionView::Fork(name) => {
            let n = fork_lane_name(reg, name);
            if create_refusal(reg.lanes, n) is None {
                "Forked into "@ + created_lane(reg, n, now).name + ". Context carried over."@
            } else {
                "I couldn't create that conversation name."@
            }
        },
        ActionView::Unknown =>
            "Meta commands: switch to name, list conversations, new conversation for name, brief, note that, fork."@,
    }
}

fn list_text(reg: &LaneRegistry) -> (r: String)
    ensures
        r@ == joined(listed_names(reg@), ", "@),
{
    let mut names: Vec<String> = Vec::new();
    for i in 0..reg.lanes.len()
        invariant
            views(names@) == listed_names(reg@).take(i as int),
    {
        let l = &reg.lanes[i];
        assert(l@ == reg@.lanes[i as int]);
        let mut n = l.name.clone();
        if same_text(l.id.as_str(), reg.active_id.as_str()) {
            n.append(" (active)");
        }
        let ghost before = names@;
        let ghost shown = n@;
        names.push(n);
        assert(views(names@) =~= views(before).push(shown));
        assert(views(names@) =~= listed_names(reg@).take(i + 1));
    }
    assert(listed_names(reg@).take(listed_names(reg@).len() as int) =~= listed_names(reg@));
    assert(views(names@).skip(0) =~= views(names@));
    join_from(&names, 0, ", ")
}

fn create_and_switch(reg: &mut LaneRegistry, name: &str, now: &str) -> (r: Result<
    String,
    LaneCreateError,
>)
    ensures
        match r {
            Ok(shown) => {
                &&& create_refusal(old(reg)@.lanes, name@) is None
                &&& final(reg)@ == created_and_switched(old(reg)@, name@, now@)
                &&& shown@ == created_lane(old(reg)@, name@, now@).name
            },
            Err(e) => create_refusal(old(reg)@.lanes, name@) == Some(e) && final(reg)@ == old(
                reg,
            )@,
        },
{
    match reg.create_at(name, now) {
        Ok(lane) => {
            proof {
                lemma_created_is_reachable(old(reg)@, name@, now@);
            }
            let _ = reg.switch_at(lane.id.as_str(), now);
            Ok(lane.name)
        },
        Err(e) => Err(e),
    }
}

/// A created lane can be switched to.
pub proof fn lemma_created_is_reachable(reg: RegistryView, name: Seq<char>, now: Seq<char>)
    requires
        create_refusal(reg.lanes, name) is None,
    ensures
        created_lane(reg, name, now).id == crate::lanes::slug_id(name),
        reachable(created(reg, name, now), created_lane(reg, name, now).id),
{
    let id = crate::lanes::slug_id(name);
    crate::lanes::lemma_position(reg.lanes, id);
    let c = created(reg, name, now);
    if !crate::lanes::has_lane(reg.lanes, id) {
        assert(c.lanes[reg.lanes.len() as int].id == id);
    }
}

/// Whether an action is about the active lane, so that there has to be one.
pub open spec fn needs_active_lane(action: ActionView) -> bool {
    match action {
        ActionView::Brief(lane) => lane is None,
        ActionView::Fork(name) => name is None,
        _ => false,
    }
}

/// Applies an action at `now_ms` and gives its spoken confirmation.
pub fn execute_at(reg: &mut LaneRegistry, action: MetaAction, now_ms: u128) -> (r: String)
    requires
        needs_active_lane(action@) ==> old(reg)@.lanes.len() > 0,
    ensures
        final(reg)@ == after_action(old(reg)@, action@, now_ms as nat),
        r@ == spoken(old(reg)@, action@, now_ms as nat),
{
    let now = stamp_text(now_ms);
    match action {
        MetaAction::Switch(lane) => {
            let _ = reg.switch_at(lane.id.as_str(), now.as_str());
            let mut s = "Switched to ".to_string();
            s.append(lane.name.as_str());
            s.append(".");
            s
        },
        MetaAction::List => {
            let mut s = "Conversations: ".to_string();
            let list = list_text(reg);
            s.append(list.as_str());
            s.append(".");
            s
        },
        MetaAction::New(name) => match create_and_switch(reg, name.as_str(), now.as_str()) {
            Ok(shown) => {
                let mut s = "Created ".to_string();
                s.append(shown.as_str());
                s.append(". You're in it.");
                s
            },
            Err(LaneCreateError::CapacityReached) => LANE_CAPACITY_ERROR_MESSAGE.to_string(),
            Err(_) =>
                "I couldn't create that conversation name. Please use a shorter name.".to_string(),
        },
        MetaAction::Brief(lane_opt) => {
            let lane = match lane_opt {
                Some(lane) => lane,
                None => reg.active().clone(),
            };
            if same_text(lane.id.as_str(), DIRECT_BRIEF_ID) {
                return "Direct line to Hermes. No project context.".to_string();
            }
            let age = age_summary_at(lane.last_active.as_str(), now_ms);
            let mut s = "Lane ".to_string();
            s.append(lane.name.as_str());
            s.append(". Last active ");
            s.append(age.as_str());
            s.append(". Full briefing arrives with the Hermes connector.");
            s
        },
        MetaAction::Note(_) => "Noted.".to_string(),
        MetaAction::Fork(name_opt) => {
            let name = match name_opt {
                Some(name) => name,
                None => {
                    let mut n = "fork-".to_string();
                    n.append(reg.active().name.as_str());
                    n
                },
            };
            match create_and_switch(reg, name.as_str(), now.as_str()) {
                Ok(shown) => {
                    let mut s = "Forked into ".to_string();
                    s.append(shown.as_str());
                    s.append(". Context carried over.");
                    s
                },
                Err(_) => "I couldn't create that conversation name.".to_string(),
            }
        },
        MetaAction::Unknown =>
            "Meta commands: switch to name, list conversations, new conversation for name, brief, note that, fork.".to_string(),
    }
}

/// Applies an action now and gives its spoken confirmation. The note of a
/// `Note` is the caller's to keep, as `note_line` writes it.
pub fn execute(reg: &mut LaneRegistry, action: MetaAction) -> (r: String)
    requires
        needs_active_lane(action@) ==> old(reg)@.lanes.len() > 0,
    ensures
        exists|now: u128|
            {
                &&& final(reg)@ == #[trigger] after_action(old(reg)@, action@, now as nat)
                &&& r@ == spoken(old(reg)@, action@, now as nat)
            },
{
    let now: u128 = epoch_ms();
    execute_at(reg, action, now)
}

/// The line that keeps a note: a JSON object with the note and its time.
pub open spec fn noted(text: Seq<char>, at: Seq<char>) -> Seq<char> {
    "{\"note\":"@ + json_string(text) + ",\"at\":\""@ + at + "\"}\n"@
}

/// The line that keeps a note.
pub fn note_line(text: &str, at: &str) -> (r: String)
    ensures
        r@ == noted(text@, at@),
{
    let mut s = "{\"note\":".to_string();
    let q = quote(text);
    s.append(q.as_str());
    s.append(",\"at\":\"");
    s.append(at);
    s.append("\"}\n");
    s
}

/// No action makes a valid registry invalid, while the clock is in the exact
/// integer range.
pub proof fn law_actions_keep_validity(reg: RegistryView, action: ActionView, now_ms: nat)
    requires
        crate::lanes::valid_registry(reg),
        now_ms <= crate::proto::MAX_SAFE_SEQUENCE,
    ensures
        crate::lanes::valid_registry(after_action(reg, action, now_ms)),
{
    let now = stamp(now_ms);
    crate::lanes::law_stamps_are_valid(now_ms);
    match action {
        ActionView::Switch(lane) => {
            if reachable(reg, lane.id) {
                crate::lanes::law_switch_keeps_validity(reg, lane.id, now);
            }
        },
        ActionView::New(name) => {
            if create_refusal(reg.lanes, name) is None {
                crate::lanes::law_create_keeps_validity(reg, name, now);
                crate::lanes::law_switch_keeps_validity(
                    created(reg, name, now),
                    created_lane(reg, name, now).id,
                    now,
                );
            }
        },
        ActionView::Fork(opt) => {
            let name = fork_lane_name(reg, opt);
            if create_refusal(reg.lanes, name) is None {
                crate::lanes::law_create_keeps_validity(reg, name, now);
                crate::lanes::law_switch_keeps_validity(
                    created(reg, name, now),
                    created_lane(reg, name, now).id,
                    now,
                );
            }
        },
        _ => {},
    }
}

/// Listing, briefing, noting and unknown speech leave the registry alone, and
/// so does a name that is refused.
pub proof fn law_read_only_actions(reg: RegistryView, action: ActionView, now_ms: nat)
    requires
        action is List || action is Brief || action is Note || action is Unknown || (action is New
            && create_refusal(reg.lanes, action->New_0) is Some),
    ensures
        after_action(reg, action, now_ms) == reg,
{
}

} // verus!
