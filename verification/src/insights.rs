//! Metrics of the turns in Codex session logs.
//!
//! A log is taken in event by event. A turn counts once it is completed; where
//! copied histories repeat a turn, the copy with the fuller trace counts.

use vstd::prelude::*;
use crate::clock;
use crate::json;
use crate::json::{Json, JsonNumber, JsonTree};
use crate::numbers;
use crate::paths;
use crate::text;

verus! {

/// What `regex::Regex::captures_iter` finds of a pattern in a text: the first
/// group of each match. Nothing where the pattern is refused.
pub uninterp spec fn first_groups(pattern: Seq<char>, subject: Seq<char>) -> Option<
    Seq<Option<Seq<char>>>,
>;

/// The texts of optional strings.
pub open spec fn opt_texts(items: Seq<Option<String>>) -> Seq<Option<Seq<char>>> {
    items.map_values(|item: Option<String>| text::opt_text(item))
}

/// `regex::Regex::new` and `captures_iter`: for each match in order the text
/// of its first group, if that took part. It depends on the pattern and the
/// text alone.
#[verifier::external_body]
fn capture_first_groups(pattern: &str, subject: &str) -> (r: Option<Vec<Option<String>>>)
    ensures
        match r {
            Some(groups) => first_groups(pattern@, subject@) == Some(opt_texts(groups@)),
            None => first_groups(pattern@, subject@) is None,
        },
{
    regex::Regex::new(pattern).ok().map(
        |regex|
            regex.captures_iter(subject).map(
                |captures| captures.get(1).map(|group| group.as_str().to_string()),
            ).collect(),
    )
}

/// A name with how often it was counted.
#[derive(Debug)]
pub struct NamedCount {
    pub name: String,
    pub count: u64,
}

/// Names with how often they were counted.
pub open spec fn counts(items: Seq<NamedCount>) -> Seq<(Seq<char>, int)> {
    items.map_values(|item: NamedCount| (item.name@, item.count as int))
}

/// The first position from `from` on of a name.
pub open spec fn name_from(items: Seq<(Seq<char>, int)>, name: Seq<char>, from: int) -> Option<int>
    decreases items.len() - from,
{
    if from < 0 || from >= items.len() {
        None
    } else if items[from].0 == name {
        Some(from)
    } else {
        name_from(items, name, from + 1)
    }
}

/// Counts with one name raised.
pub open spec fn raised(items: Seq<(Seq<char>, int)>, name: Seq<char>, by: int) -> Seq<
    (Seq<char>, int),
> {
    match name_from(items, name, 0) {
        Some(i) => items.update(i, (name, items[i].1 + by)),
        None => items.push((name, by)),
    }
}

/// Counts with each of several names raised by one.
pub open spec fn raised_all(items: Seq<(Seq<char>, int)>, names: Seq<Seq<char>>) -> Seq<
    (Seq<char>, int),
>
    decreases names.len(),
{
    if names.len() == 0 {
        items
    } else {
        raised(raised_all(items, names.drop_last()), names.last(), 1)
    }
}

/// All counts added up.
pub open spec fn total(items: Seq<(Seq<char>, int)>) -> int
    decreases items.len(),
{
    if items.len() == 0 {
        0
    } else {
        total(items.drop_last()) + items.last().1
    }
}

/// No count is below zero or above a bound.
pub open spec fn bounded(items: Seq<(Seq<char>, int)>, bound: int) -> bool {
    forall|i: int| 0 <= i < items.len() ==> 0 <= (#[trigger] items[i]).1 <= bound
}

pub proof fn lemma_name_from(items: Seq<(Seq<char>, int)>, name: Seq<char>, from: int)
    requires
        0 <= from,
    ensures
        match name_from(items, name, from) {
            Some(i) => from <= i < items.len() && items[i].0 == name,
            None => forall|k: int| from <= k < items.len() ==> (#[trigger] items[k]).0 != name,
        },
    decreases items.len() - from,
{
    if from < items.len() && items[from].0 != name {
        lemma_name_from(items, name, from + 1);
    }
}

proof fn lemma_total_update(items: Seq<(Seq<char>, int)>, i: int, value: (Seq<char>, int))
    requires
        0 <= i < items.len(),
    ensures
        total(items.update(i, value)) == total(items) - items[i].1 + value.1,
    decreases items.len(),
{
    let changed = items.update(i, value);
    if i == items.len() - 1 {
        assert(changed.drop_last() =~= items.drop_last());
    } else {
        lemma_total_update(items.drop_last(), i, value);
        assert(changed.drop_last() =~= items.drop_last().update(i, value));
    }
}

/// Raising a name raises the total by as much.
pub proof fn lemma_raised(items: Seq<(Seq<char>, int)>, name: Seq<char>, by: int)
    ensures
        total(raised(items, name, by)) == total(items) + by,
{
    lemma_name_from(items, name, 0);
    match name_from(items, name, 0) {
        Some(i) => lemma_total_update(items, i, (name, items[i].1 + by)),
        None => {
            assert(items.push((name, by)).drop_last() =~= items);
        },
    }
}

/// Raises the count of a name.
pub(crate) fn raise(items: &mut Vec<NamedCount>, name: &str, by: u64)
    requires
        forall|i: int|
            0 <= i < old(items)@.len() && (#[trigger] old(items)@[i]).name@ == name@ ==> old(
                items,
            )@[i].count + by <= u64::MAX,
    ensures
        counts(final(items)@) == raised(counts(old(items)@), name@, by as int),
{
    let ghost all = counts(items@);
    let mut i: usize = 0;
    while i < items.len()
        invariant
            i <= items@.len(),
            items@ == old(items)@,
            all == counts(items@),
            name_from(all, name@, i as int) == name_from(all, name@, 0),
            forall|i: int|
                0 <= i < old(items)@.len() && (#[trigger] old(items)@[i]).name@ == name@ ==> old(
                    items,
                )@[i].count + by <= u64::MAX,
        decreases items@.len() - i,
    {
        assert(all[i as int] == (items@[i as int].name@, items@[i as int].count as int));
        if text::same_text(items[i].name.as_str(), name) {
            items[i].count = items[i].count + by;
            assert(counts(items@) =~= raised(all, name@, by as int));
            return;
        }
        i += 1;
    }
    items.push(NamedCount { name: name.to_owned(), count: by });
    assert(counts(items@) =~= raised(all, name@, by as int));
}

/// Token counts of a session so far.
#[derive(Clone, Copy, Debug, PartialEq, Eq, Structural)]
pub struct TokenSnapshot {
    pub input: u64,
    pub cached_input: u64,
    pub output: u64,
}

/// A turn that is going on.
#[derive(Debug)]
pub struct ActiveTurn {
    pub turn_id: String,
    pub session_id: String,
    pub started_at_ms: i64,
    pub base_tokens: TokenSnapshot,
    pub last_tokens: TokenSnapshot,
    pub model_requests: u64,
    pub mcp_calls: Vec<NamedCount>,
    pub skill_calls: Vec<NamedCount>,
    pub seen_call_ids: Vec<String>,
}

/// A turn that is going on.
pub struct ActiveFacts {
    pub turn_id: Seq<char>,
    pub session_id: Seq<char>,
    pub started_at_ms: i64,
    pub base_tokens: TokenSnapshot,
    pub last_tokens: TokenSnapshot,
    pub model_requests: int,
    pub mcp_calls: Seq<(Seq<char>, int)>,
    pub skill_calls: Seq<(Seq<char>, int)>,
    pub seen_call_ids: Seq<Seq<char>>,
}

impl View for ActiveTurn {
    type V = ActiveFacts;

    open spec fn view(&self) -> ActiveFacts {
        ActiveFacts {
            turn_id: self.turn_id@,
            session_id: self.session_id@,
            started_at_ms: self.started_at_ms,
            base_tokens: self.base_tokens,
            last_tokens: self.last_tokens,
            model_requests: self.model_requests as int,
            mcp_calls: counts(self.mcp_calls@),
            skill_calls: counts(self.skill_calls@),
            seen_call_ids: paths::texts(self.seen_call_ids@),
        }
    }
}

/// A completed turn. Durations are kept as the numbers of the log.
#[derive(Debug)]
pub struct CompletedTurn {
    pub session_id: String,
    pub started_at_ms: i64,
    pub completed_at_ms: i64,
    pub duration_ms: JsonNumber,
    pub ttft_ms: JsonNumber,
    pub model_requests: u64,
    pub input_tokens: u64,
    pub cached_input_tokens: u64,
    pub output_tokens: u64,
    pub mcp_calls: Vec<NamedCount>,
    pub skill_calls: Vec<NamedCount>,
}

/// A completed turn.
pub struct CompletedFacts {
    pub session_id: Seq<char>,
    pub started_at_ms: i64,
    pub completed_at_ms: i64,
    pub duration_ms: JsonNumber,
    pub ttft_ms: JsonNumber,
    pub model_requests: int,
    pub input_tokens: int,
    pub cached_input_tokens: int,
    pub output_tokens: int,
    pub mcp_calls: Seq<(Seq<char>, int)>,
    pub skill_calls: Seq<(Seq<char>, int)>,
}

impl View for CompletedTurn {
    type V = CompletedFacts;

    open spec fn view(&self) -> CompletedFacts {
        CompletedFacts {
            session_id: self.session_id@,
            started_at_ms: self.started_at_ms,
            completed_at_ms: self.completed_at_ms,
            duration_ms: self.duration_ms,
            ttft_ms: self.ttft_ms,
            model_requests: self.model_requests as int,
            input_tokens: self.input_tokens as int,
            cached_input_tokens: self.cached_input_tokens as int,
            output_tokens: self.output_tokens as int,
            mcp_calls: counts(self.mcp_calls@),
            skill_calls: counts(self.skill_calls@),
        }
    }
}

/// Completed turns under their ids.
pub open spec fn turn_table(turns: Seq<(String, CompletedTurn)>) -> Seq<(Seq<char>, CompletedFacts)> {
    turns.map_values(|t: (String, CompletedTurn)| (t.0@, t.1@))
}

/// The turns of logs while they are taken in.
#[derive(Debug)]
pub struct TurnCollector {
    /// The window in which a turn has to be completed.
    pub start_ms: Option<i64>,
    pub end_ms: Option<i64>,
    /// How many events were taken in.
    pub events: u64,
    pub session_id: String,
    pub latest_tokens: TokenSnapshot,
    pub active: Option<ActiveTurn>,
    pub turns: Vec<(String, CompletedTurn)>,
}

/// The turns of logs while they are taken in.
pub struct CollectorFacts {
    pub start_ms: Option<i64>,
    pub end_ms: Option<i64>,
    pub events: int,
    pub session_id: Seq<char>,
    pub latest_tokens: TokenSnapshot,
    pub active: Option<ActiveFacts>,
    pub turns: Seq<(Seq<char>, CompletedFacts)>,
}

impl View for TurnCollector {
    type V = CollectorFacts;

    open spec fn view(&self) -> CollectorFacts {
        CollectorFacts {
            start_ms: self.start_ms,
            end_ms: self.end_ms,
            events: self.events as int,
            session_id: self.session_id@,
            latest_tokens: self.latest_tokens,
            active: match self.active {
                Some(turn) => Some(turn@),
                None => None,
            },
            turns: turn_table(self.turns@),
        }
    }
}

/// A turn that was given no more than one count per event.
pub open spec fn sound_active(turn: ActiveFacts, events: int) -> bool {
    &&& 0 <= turn.model_requests <= events
    &&& bounded(turn.mcp_calls, events)
    &&& total(turn.mcp_calls) <= events
    &&& bounded(turn.skill_calls, events)
}

/// A completed turn that was given no more than one count per event.
pub open spec fn sound_completed(turn: CompletedFacts, events: int) -> bool {
    &&& 0 <= turn.model_requests <= events
    &&& bounded(turn.mcp_calls, events)
    &&& total(turn.mcp_calls) <= events
    &&& bounded(turn.skill_calls, events)
}

impl TurnCollector {
    /// No turn has more counts than there were events.
    pub open spec fn well_formed(&self) -> bool {
        &&& self.active matches Some(turn) ==> sound_active(turn@, self.events as int)
        &&& forall|i: int|
            0 <= i < self@.turns.len() ==> sound_completed(
                (#[trigger] self@.turns[i]).1,
                self.events as int,
            )
    }
}

/// The token counts that an event of that payload gives.
pub open spec fn snapshot_of(payload: JsonTree) -> Option<TokenSnapshot> {
    let usage = match payload.get("info"@) {
        Some(info) => info.get("total_token_usage"@),
        None => None,
    };
    match usage {
        Some(usage) => match (usage.get_u64("input_tokens"@), usage.get_u64("output_tokens"@)) {
            (Some(input), Some(output)) => Some(
                TokenSnapshot {
                    input,
                    cached_input: match usage.get_either(
                        "cached_input_tokens"@,
                        "cache_read_input_tokens"@,
                    ) {
                        Some(JsonTree::Number(JsonNumber::Unsigned(n))) => n,
                        _ => 0,
                    },
                    output,
                },
            ),
            _ => None,
        },
        None => None,
    }
}

/// The token counts that an event of that payload gives.
pub fn parse_token_snapshot(payload: &Json) -> (r: Option<TokenSnapshot>)
    ensures
        r == snapshot_of(payload@),
{
    let usage = match payload.get("info") {
        Some(info) => match info.get("total_token_usage") {
            Some(usage) => usage,
            None => return None,
        },
        None => return None,
    };
    let input: u64 = match usage.get_u64("input_tokens") {
        Some(input) => input,
        None => return None,
    };
    let output: u64 = match usage.get_u64("output_tokens") {
        Some(output) => output,
        None => return None,
    };
    let cached_input: u64 = match usage.get_either(
        "cached_input_tokens",
        "cache_read_input_tokens",
    ) {
        Some(Json::Number(JsonNumber::Unsigned(n))) => *n,
        _ => 0,
    };
    Some(TokenSnapshot { input, cached_input, output })
}

/// The server that a tool's name speaks of.
pub open spec fn server_of(name: Seq<char>) -> Option<Seq<char>> {
    match text::after_prefix(name, "mcp__"@) {
        Some(rest) => {
            let server = match text::parted(rest, "__"@) {
                Some(parts) => parts.0,
                None => rest,
            };
            if server.len() == 0 {
                None
            } else {
                Some(server)
            }
        },
        None => None,
    }
}

/// The server that a tool's name speaks of.
pub fn mcp_server_name(name: &str) -> (r: Option<String>)
    ensures
        text::opt_text(r) == server_of(name@),
{
    let rest = match text::strip_prefix(name, "mcp__") {
        Some(rest) => rest,
        None => return None,
    };
    let server = match text::split_once(rest.as_str(), "__") {
        Some(parts) => parts.0,
        None => rest,
    };
    if server.as_str().is_empty() {
        None
    } else {
        Some(server)
    }
}

/// The milliseconds since the epoch of an event.
pub open spec fn stamp_of(value: JsonTree) -> Option<i64> {
    match value.get_text("timestamp"@) {
        Some(stamp) => match clock::rfc3339_moment(stamp) {
            Some(moment) => Some(moment.1),
            None => None,
        },
        None => None,
    }
}

/// The milliseconds since the epoch of an event.
pub fn parse_timestamp_ms(value: &Json) -> (r: Option<i64>)
    ensures
        r == stamp_of(value@),
{
    match value.get_text("timestamp") {
        Some(stamp) => match clock::parse_rfc3339(stamp) {
            Some(moment) => Some(moment.1),
            None => None,
        },
        None => None,
    }
}

/// Those that are there.
pub open spec fn present(items: Seq<Option<Seq<char>>>) -> Seq<Seq<char>>
    decreases items.len(),
{
    if items.len() == 0 {
        Seq::empty()
    } else {
        let rest = present(items.drop_last());
        match items.last() {
            Some(item) => rest.push(item),
            None => rest,
        }
    }
}

/// Each text once, where it first comes.
pub open spec fn once(items: Seq<Seq<char>>) -> Seq<Seq<char>>
    decreases items.len(),
{
    if items.len() == 0 {
        Seq::empty()
    } else {
        let rest = once(items.drop_last());
        if rest.contains(items.last()) {
            rest
        } else {
            rest.push(items.last())
        }
    }
}

/// Each text once, where it first comes.
pub fn texts_once(items: &Vec<String>) -> (r: Vec<String>)
    ensures
        paths::texts(r@) == once(paths::texts(items@)),
{
    let ghost all = paths::texts(items@);
    let mut out: Vec<String> = Vec::new();
    let mut i: usize = 0;
    assert(paths::texts(out@) =~= once(all.take(0)));
    while i < items.len()
        invariant
            i <= items@.len(),
            all == paths::texts(items@),
            paths::texts(out@) == once(all.take(i as int)),
        decreases items@.len() - i,
    {
        let ghost before = paths::texts(out@);
        let item = items[i].as_str();
        assert(all.take(i + 1).drop_last() =~= all.take(i as int));
        assert(all[i as int] == item@);
        if !paths::holds_text(&out, item) {
            out.push(item.to_owned());
            assert(paths::texts(out@) =~= before.push(item@));
        }
        i += 1;
    }
    assert(all.take(all.len() as int) =~= all);
    out
}

/// No text comes twice.
pub proof fn lemma_once(items: Seq<Seq<char>>)
    ensures
        once(items).no_duplicates(),
    decreases items.len(),
{
    if items.len() > 0 {
        lemma_once(items.drop_last());
        let rest = once(items.drop_last());
        let all = once(items);
        assert forall|i: int, j: int|
            0 <= i < all.len() && 0 <= j < all.len() && i != j implies all[i] != all[j] by {
            if all.len() > rest.len() {
                if i < rest.len() && j < rest.len() {
                    assert(rest[i] != rest[j]);
                } else if i < rest.len() {
                    assert(rest.contains(rest[i]));
                } else {
                    assert(rest.contains(rest[j]));
                }
            }
        }
    }
}

/// The pattern of the paths of skills.
pub const SKILL_PATH: &'static str = "(?:^|[/\\\\])skills[/\\\\]([^/\\\\]+)[/\\\\]SKILL\\.md";

/// The skills that a text names by their paths.
pub open spec fn skills_in(input: Seq<char>) -> Seq<Seq<char>> {
    match first_groups(SKILL_PATH@, input) {
        Some(groups) => present(groups),
        None => Seq::empty(),
    }
}

/// The skills that a text names by their paths.
pub fn skill_names(input: &str) -> (r: Vec<String>)
    ensures
        paths::texts(r@) == skills_in(input@),
{
    let mut out: Vec<String> = Vec::new();
    assert(paths::texts(out@) =~= Seq::<Seq<char>>::empty());
    let groups = match capture_first_groups(SKILL_PATH, input) {
        Some(groups) => groups,
        None => return out,
    };
    let ghost all = opt_texts(groups@);
    let mut i: usize = 0;
    assert(paths::texts(out@) =~= present(all.take(0)));
    while i < groups.len()
        invariant
            i <= groups@.len(),
            all == opt_texts(groups@),
            paths::texts(out@) == present(all.take(i as int)),
        decreases groups@.len() - i,
    {
        let ghost before = paths::texts(out@);
        assert(all.take(i + 1).drop_last() =~= all.take(i as int));
        assert(all[i as int] == text::opt_text(groups@[i as int]));
        if let Some(name) = &groups[i] {
            out.push(name.as_str().to_owned());
            assert(paths::texts(out@) =~= before.push(name@));
        }
        i += 1;
    }
    assert(all.take(all.len() as int) =~= all);
    out
}

/// The payload of an event.
pub open spec fn payload_of(value: JsonTree) -> JsonTree {
    match value.get("payload"@) {
        Some(payload) => payload,
        None => JsonTree::Null,
    }
}

/// The item of a response: the payload of the payload, or else the payload.
pub open spec fn item_of(value: JsonTree) -> JsonTree {
    match payload_of(value).get("payload"@) {
        Some(item) => item,
        None => payload_of(value),
    }
}

/// The skills that an event names.
pub open spec fn skills_of(value: JsonTree) -> Seq<Seq<char>> {
    match item_of(value).text_of_either("input"@, "arguments"@) {
        Some(input) => skills_in(input),
        None => Seq::empty(),
    }
}

/// A turn that begins.
pub open spec fn begun(state: CollectorFacts, turn_id: Seq<char>, stamp: i64) -> ActiveFacts {
    ActiveFacts {
        turn_id,
        session_id: state.session_id,
        started_at_ms: stamp,
        base_tokens: state.latest_tokens,
        last_tokens: state.latest_tokens,
        model_requests: 0,
        mcp_calls: Seq::empty(),
        skill_calls: Seq::empty(),
        seen_call_ids: Seq::empty(),
    }
}

/// `a - b`, or nothing where that is below zero.
pub open spec fn excess(a: u64, b: u64) -> int {
    if a < b {
        0
    } else {
        a - b
    }
}

/// A turn that is completed.
pub open spec fn completed(
    turn: ActiveFacts,
    stamp: i64,
    duration_ms: JsonNumber,
    ttft_ms: JsonNumber,
) -> CompletedFacts {
    CompletedFacts {
        session_id: turn.session_id,
        started_at_ms: turn.started_at_ms,
        completed_at_ms: stamp,
        duration_ms,
        ttft_ms,
        model_requests: turn.model_requests,
        input_tokens: excess(turn.last_tokens.input, turn.base_tokens.input),
        cached_input_tokens: excess(
            turn.last_tokens.cached_input,
            turn.base_tokens.cached_input,
        ),
        output_tokens: excess(turn.last_tokens.output, turn.base_tokens.output),
        mcp_calls: turn.mcp_calls,
        skill_calls: turn.skill_calls,
    }
}

/// The first position from `from` on of a turn's id.
pub open spec fn turn_from(
    turns: Seq<(Seq<char>, CompletedFacts)>,
    id: Seq<char>,
    from: int,
) -> Option<int>
    decreases turns.len() - from,
{
    if from < 0 || from >= turns.len() {
        None
    } else if turns[from].0 == id {
        Some(from)
    } else {
        turn_from(turns, id, from + 1)
    }
}

/// A copy of a turn that tells more than another.
pub open spec fn fuller(new: CompletedFacts, old: CompletedFacts) -> bool {
    new.model_requests > old.model_requests || total(new.mcp_calls) > total(old.mcp_calls)
}

/// Turns with one more. A turn that is there already gives way to a fuller
/// copy alone.
pub open spec fn with_completed(
    turns: Seq<(Seq<char>, CompletedFacts)>,
    id: Seq<char>,
    turn: CompletedFacts,
) -> Seq<(Seq<char>, CompletedFacts)> {
    match turn_from(turns, id, 0) {
        Some(i) => if fuller(turn, turns[i].1) {
            turns.update(i, (id, turn))
        } else {
            turns
        },
        None => turns.push((id, turn)),
    }
}

/// A point in time lies in the window.
pub open spec fn in_window(state: CollectorFacts, stamp: i64) -> bool {
    &&& state.start_ms matches Some(start) ==> stamp >= start
    &&& state.end_ms matches Some(end) ==> stamp <= end
}

/// The end of a turn. It counts where it lies in the window and tells how
/// long the turn took and how long the first token took.
pub open spec fn after_end(state: CollectorFacts, payload: JsonTree, stamp: Option<i64>) -> CollectorFacts {
    match state.active {
        None => state,
        Some(turn) => {
            let idle = CollectorFacts { active: None, ..state };
            match (
                stamp,
                payload.get_number("duration_ms"@),
                payload.get_number("time_to_first_token_ms"@),
            ) {
                (Some(at), Some(duration_ms), Some(ttft_ms)) => if in_window(state, at) {
                    CollectorFacts {
                        turns: with_completed(
                            state.turns,
                            turn.turn_id,
                            completed(turn, at, duration_ms, ttft_ms),
                        ),
                        ..idle
                    }
                } else {
                    idle
                },
                _ => idle,
            }
        },
    }
}

/// A message of the session.
pub open spec fn after_message(state: CollectorFacts, payload: JsonTree, stamp: Option<i64>) -> CollectorFacts {
    let kind = payload.get_text("type"@);
    if kind == Some("task_started"@) {
        match (payload.get_text("turn_id"@), stamp) {
            (Some(turn_id), Some(at)) => CollectorFacts {
                active: Some(begun(state, turn_id, at)),
                ..state
            },
            _ => state,
        }
    } else if kind == Some("token_count"@) {
        match snapshot_of(payload) {
            Some(snapshot) => CollectorFacts {
                latest_tokens: snapshot,
                active: match state.active {
                    Some(turn) => Some(
                        ActiveFacts {
                            last_tokens: snapshot,
                            model_requests: turn.model_requests + 1,
                            ..turn
                        },
                    ),
                    None => None,
                },
                ..state
            },
            None => state,
        }
    } else if kind == Some("task_complete"@) {
        after_end(state, payload, stamp)
    } else {
        state
    }
}

/// A turn after a call of a tool: its server and its skills are counted, but
/// for a call that was seen before.
pub open spec fn after_call(turn: ActiveFacts, item: JsonTree, skills: Seq<Seq<char>>) -> ActiveFacts {
    let id = item.text_of_either("call_id"@, "id"@);
    if id matches Some(call_id) && turn.seen_call_ids.contains(call_id) {
        turn
    } else {
        ActiveFacts {
            seen_call_ids: match id {
                Some(call_id) => turn.seen_call_ids.push(call_id),
                None => turn.seen_call_ids,
            },
            mcp_calls: match item.get_text("name"@) {
                Some(name) => match server_of(name) {
                    Some(server) => raised(turn.mcp_calls, server, 1),
                    None => turn.mcp_calls,
                },
                None => turn.mcp_calls,
            },
            skill_calls: raised_all(turn.skill_calls, once(skills)),
            ..turn
        }
    }
}

/// Whether an item is a call of a tool.
pub open spec fn tool_call(item: JsonTree) -> bool {
    item.get_text("type"@) == Some("custom_tool_call"@) || item.get_text("type"@) == Some(
        "function_call"@,
    )
}

/// The collector after an event at `stamp` that names `skills`.
pub open spec fn after_value(
    state: CollectorFacts,
    value: JsonTree,
    stamp: Option<i64>,
    skills: Seq<Seq<char>>,
) -> CollectorFacts {
    let kind = value.get_text("type"@);
    let payload = payload_of(value);
    let next = if kind == Some("session_meta"@) {
        match payload.text_of_either("id"@, "thread_id"@) {
            Some(id) => CollectorFacts { session_id: id, ..state },
            None => state,
        }
    } else if kind == Some("event_msg"@) {
        after_message(state, payload, stamp)
    } else if kind == Some("response_item"@) && tool_call(item_of(value)) {
        CollectorFacts {
            active: match state.active {
                Some(turn) => Some(after_call(turn, item_of(value), skills)),
                None => None,
            },
            ..state
        }
    } else {
        state
    };
    CollectorFacts { events: state.events + 1, ..next }
}

/// The collector after a line of a log.
pub open spec fn after_line(state: CollectorFacts, line: Seq<char>) -> CollectorFacts {
    match json::parsed_json(line) {
        Ok(value) => after_value(state, value, stamp_of(value), skills_of(value)),
        Err(_) => state,
    }
}

/// The collector after lines of a log.
pub open spec fn after_lines(state: CollectorFacts, lines: Seq<Seq<char>>) -> CollectorFacts
    decreases lines.len(),
{
    if lines.len() == 0 {
        state
    } else {
        after_line(after_lines(state, lines.drop_last()), lines.last())
    }
}

/// The collector at the beginning of a log, which goes by its path until an
/// event names the session.
pub open spec fn at_file(state: CollectorFacts, path: Seq<char>) -> CollectorFacts {
    CollectorFacts {
        session_id: path,
        latest_tokens: TokenSnapshot { input: 0, cached_input: 0, output: 0 },
        active: None,
        ..state
    }
}

/// The collector after a log.
pub open spec fn after_file(
    state: CollectorFacts,
    path: Seq<char>,
    lines: Seq<Seq<char>>,
) -> CollectorFacts {
    after_lines(at_file(state, path), lines)
}

/// The position of a turn's id.
fn find_turn(turns: &Vec<(String, CompletedTurn)>, id: &str) -> (r: Option<usize>)
    ensures
        match r {
            Some(i) => i < turns@.len() && turn_from(turn_table(turns@), id@, 0) == Some(i as int),
            None => turn_from(turn_table(turns@), id@, 0) is None,
        },
{
    let ghost all = turn_table(turns@);
    let mut i: usize = 0;
    while i < turns.len()
        invariant
            i <= turns@.len(),
            all == turn_table(turns@),
            turn_from(all, id@, i as int) == turn_from(all, id@, 0),
        decreases turns@.len() - i,
    {
        assert(all[i as int] == (turns@[i as int].0@, turns@[i as int].1@));
        if text::same_text(turns[i].0.as_str(), id) {
            return Some(i);
        }
        i += 1;
    }
    None
}

/// All counts added up.
fn total_of(items: &Vec<NamedCount>) -> (r: u64)
    requires
        total(counts(items@)) <= u64::MAX,
    ensures
        r == total(counts(items@)),
{
    let ghost all = counts(items@);
    let mut sum: u64 = 0;
    let mut i: usize = 0;
    while i < items.len()
        invariant
            i <= items@.len(),
            all == counts(items@),
            total(all) <= u64::MAX,
            sum == total(all.take(i as int)),
        decreases items@.len() - i,
    {
        proof {
            assert(all.take(i + 1).drop_last() =~= all.take(i as int));
            assert(all[i as int] == (items@[i as int].name@, items@[i as int].count as int));
            lemma_total_grows(all, i + 1);
        }
        sum = sum + items[i].count;
        i += 1;
    }
    assert(all.take(all.len() as int) =~= all);
    sum
}

pub proof fn lemma_total_grows(items: Seq<(Seq<char>, int)>, n: int)
    requires
        forall|k: int| 0 <= k < items.len() ==> 0 <= (#[trigger] items[k]).1,
        0 <= n <= items.len(),
    ensures
        total(items.take(n)) <= total(items),
    decreases items.len(),
{
    if n == items.len() {
        assert(items.take(n) =~= items);
    } else {
        let fewer = items.drop_last();
        lemma_total_grows(fewer, n);
        assert(fewer.take(n) =~= items.take(n));
    }
}

/// Where counts are raised for distinct names, none rises by more than one.
proof fn lemma_raised_all(
    items: Seq<(Seq<char>, int)>,
    names: Seq<Seq<char>>,
    bound: int,
)
    requires
        names.no_duplicates(),
        bounded(items, bound),
        0 <= bound,
    ensures
        bounded(raised_all(items, names), bound + 1),
        forall|i: int|
            0 <= i < raised_all(items, names).len() && !names.contains(
                (#[trigger] raised_all(items, names)[i]).0,
            ) ==> raised_all(items, names)[i].1 <= bound,
    decreases names.len(),
{
    if names.len() > 0 {
        let fewer = names.drop_last();
        let name = names.last();
        assert(fewer.no_duplicates());
        lemma_raised_all(items, fewer, bound);
        let before = raised_all(items, fewer);
        let after = raised_all(items, names);
        lemma_name_from(before, name, 0);
        assert(!fewer.contains(name)) by {
            if fewer.contains(name) {
                let k = choose|k: int| 0 <= k < fewer.len() && fewer[k] == name;
                assert(names[k] == names[names.len() - 1]);
            }
        }
        assert(names.contains(name)) by {
            assert(names[names.len() - 1] == name);
        }
        assert forall|i: int| 0 <= i < after.len() implies 0 <= (#[trigger] after[i]).1 <= bound + 1
            && (!names.contains(after[i].0) ==> after[i].1 <= bound) by {
            if i < before.len() {
                assert(before[i].1 >= 0);
                if fewer.contains(before[i].0) {
                    let k = choose|k: int| 0 <= k < fewer.len() && fewer[k] == before[i].0;
                    assert(names[k] == before[i].0);
                }
            }
        }
    } else {
        assert forall|i: int| 0 <= i < items.len() implies 0 <= (#[trigger] items[i]).1 <= bound
            + 1 by {}
    }
}

/// Raises the counts of names by one each.
fn raise_all(items: &mut Vec<NamedCount>, names: &Vec<String>, bound: u64)
    requires
        bound < u64::MAX,
        bounded(counts(old(items)@), bound as int),
        paths::texts(names@).no_duplicates(),
    ensures
        counts(final(items)@) == raised_all(counts(old(items)@), paths::texts(names@)),
        bounded(counts(final(items)@), bound + 1),
{
    let ghost start = counts(items@);
    let ghost all = paths::texts(names@);
    let mut k: usize = 0;
    assert(all.take(0) =~= Seq::<Seq<char>>::empty());
    while k < names.len()
        invariant
            k <= names@.len(),
            bound < u64::MAX,
            bounded(start, bound as int),
            all == paths::texts(names@),
            all.no_duplicates(),
            counts(items@) == raised_all(start, all.take(k as int)),
        decreases names@.len() - k,
    {
        proof {
            assert(all.take(k + 1).drop_last() =~= all.take(k as int));
            assert(all[k as int] == names@[k as int]@);
            let part = all.take(k as int);
            assert forall|i: int, j: int|
                0 <= i < part.len() && 0 <= j < part.len() && i != j implies part[i] != part[j] by {
                assert(all[i] != all[j]);
            }
            lemma_raised_all(start, part, bound as int);
            let now = counts(items@);
            assert forall|i: int|
                0 <= i < items@.len() && (#[trigger] items@[i]).name@ == names@[k as int]@ implies items@[i].count
                + 1 <= u64::MAX by {
                assert(now[i] == (items@[i].name@, items@[i].count as int));
                if part.contains(now[i].0) {
                    let j = choose|j: int| 0 <= j < part.len() && part[j] == now[i].0;
                    assert(all[j] == all[k as int]);
                }
            }
        }
        raise(items, names[k].as_str(), 1);
        k += 1;
    }
    proof {
        assert(all.take(all.len() as int) =~= all);
        lemma_raised_all(start, all, bound as int);
    }
}

/// Takes a call of a tool into a turn.
fn note_call(turn: &mut ActiveTurn, item: &Json, skills: &Vec<String>, events: u64)
    requires
        events < u64::MAX,
        sound_active(old(turn)@, events as int),
    ensures
        final(turn)@ == after_call(old(turn)@, item@, paths::texts(skills@)),
        sound_active(final(turn)@, events + 1),
{
    let ghost before = turn@;
    if let Some(call_id) = item.text_of_either("call_id", "id") {
        if paths::holds_text(&turn.seen_call_ids, call_id) {
            return ;
        }
        let ghost seen = paths::texts(turn.seen_call_ids@);
        turn.seen_call_ids.push(call_id.to_owned());
        assert(paths::texts(turn.seen_call_ids@) =~= seen.push(call_id@));
    }
    if let Some(name) = item.get_text("name") {
        if let Some(server) = mcp_server_name(name) {
            let ghost held = counts(turn.mcp_calls@);
            proof {
                assert forall|i: int|
                    0 <= i < turn.mcp_calls@.len() && (#[trigger] turn.mcp_calls@[i]).name@
                        == server@ implies turn.mcp_calls@[i].count + 1 <= u64::MAX by {
                    assert(held[i].1 == turn.mcp_calls@[i].count);
                }
            }
            raise(&mut turn.mcp_calls, server.as_str(), 1);
            proof {
                lemma_raised(held, server@, 1);
                lemma_name_from(held, server@, 0);
                let after = counts(turn.mcp_calls@);
                assert forall|i: int| 0 <= i < after.len() implies 0 <= (#[trigger] after[i]).1
                    <= events + 1 by {
                    if i < held.len() {
                        assert(0 <= held[i].1 <= events);
                    }
                }
            }
        }
    }
    let names = texts_once(skills);
    proof {
        lemma_once(paths::texts(skills@));
    }
    raise_all(&mut turn.skill_calls, &names, events);
}

impl TurnCollector {
    /// Begins to take in logs. A turn counts where it is completed in the
    /// window, whose bounds are given in seconds.
    pub fn new(start_date: Option<i64>, end_date: Option<i64>) -> (r: TurnCollector)
        ensures
            r.well_formed(),
            r@.events == 0,
            r@.start_ms == (match start_date {
                Some(seconds) => Some(numbers::saturated(seconds * 1000) as i64),
                None => None,
            }),
            r@.end_ms == (match end_date {
                Some(seconds) => Some(numbers::saturated(seconds * 1000) as i64),
                None => None,
            }),
            r@.session_id == Seq::<char>::empty(),
            r@.latest_tokens == (TokenSnapshot { input: 0, cached_input: 0, output: 0 }),
            r@.active is None,
            r@.turns == Seq::<(Seq<char>, CompletedFacts)>::empty(),
    {
        let turns: Vec<(String, CompletedTurn)> = Vec::new();
        assert(turn_table(turns@) =~= Seq::<(Seq<char>, CompletedFacts)>::empty());
        let start_ms: Option<i64> = match start_date {
            Some(seconds) => Some(numbers::milliseconds(seconds)),
            None => None,
        };
        let end_ms: Option<i64> = match end_date {
            Some(seconds) => Some(numbers::milliseconds(seconds)),
            None => None,
        };
        TurnCollector {
            start_ms,
            end_ms,
            events: 0,
            session_id: String::new(),
            latest_tokens: TokenSnapshot { input: 0, cached_input: 0, output: 0 },
            active: None,
            turns,
        }
    }

    /// Begins a log. Until an event names the session, it goes by the path.
    pub fn begin_file(&mut self, path: &str)
        requires
            old(self).well_formed(),
        ensures
            final(self).well_formed(),
            final(self)@ == at_file(old(self)@, path@),
    {
        self.session_id = path.to_owned();
        self.latest_tokens = TokenSnapshot { input: 0, cached_input: 0, output: 0 };
        self.active = None;
        assert(self@.turns == old(self)@.turns);
    }

    /// Takes in the end of a turn.
    fn end_turn(&mut self, payload: &Json, stamp: Option<i64>)
        requires
            old(self).well_formed(),
        ensures
            final(self).well_formed(),
            final(self)@ == after_end(old(self)@, payload@, stamp),
    {
        let ghost table = self@.turns;
        let turn = match self.active.take() {
            Some(turn) => turn,
            None => return ,
        };
        let at: i64 = match stamp {
            Some(at) => at,
            None => return ,
        };
        if let Some(start) = self.start_ms {
            if at < start {
                return ;
            }
        }
        if let Some(end) = self.end_ms {
            if at > end {
                return ;
            }
        }
        let duration_ms = match payload.get_number("duration_ms") {
            Some(number) => number,
            None => return ,
        };
        let ttft_ms = match payload.get_number("time_to_first_token_ms") {
            Some(number) => number,
            None => return ,
        };
        let ghost facts = completed(turn@, at, duration_ms, ttft_ms);
        let ghost id = turn.turn_id@;
        let done = CompletedTurn {
            session_id: turn.session_id,
            started_at_ms: turn.started_at_ms,
            completed_at_ms: at,
            duration_ms,
            ttft_ms,
            model_requests: turn.model_requests,
            input_tokens: turn.last_tokens.input.saturating_sub(turn.base_tokens.input),
            cached_input_tokens: turn.last_tokens.cached_input.saturating_sub(
                turn.base_tokens.cached_input,
            ),
            output_tokens: turn.last_tokens.output.saturating_sub(turn.base_tokens.output),
            mcp_calls: turn.mcp_calls,
            skill_calls: turn.skill_calls,
        };
        assert(done@ == facts);
        match find_turn(&self.turns, turn.turn_id.as_str()) {
            Some(i) => {
                assert(table[i as int] == (self.turns@[i as int].0@, self.turns@[i as int].1@));
                let old_calls = total_of(&self.turns[i].1.mcp_calls);
                let new_calls = total_of(&done.mcp_calls);
                if done.model_requests > self.turns[i].1.model_requests || new_calls > old_calls {
                    self.turns.set(i, (turn.turn_id, done));
                    assert(turn_table(self.turns@) =~= table.update(i as int, (id, facts)));
                }
            },
            None => {
                self.turns.push((turn.turn_id, done));
                assert(turn_table(self.turns@) =~= table.push((id, facts)));
            },
        }
    }

    /// Takes in a message of the session.
    fn message(&mut self, payload: &Json, stamp: Option<i64>)
        requires
            old(self).well_formed(),
            old(self).events < u64::MAX,
        ensures
            final(self)@ == after_message(old(self)@, payload@, stamp),
            final(self).active matches Some(turn) ==> sound_active(turn@, old(self).events + 1),
            forall|i: int|
                0 <= i < final(self)@.turns.len() ==> sound_completed(
                    (#[trigger] final(self)@.turns[i]).1,
                    old(self).events as int,
                ),
    {
        let kind = match payload.get_text("type") {
            Some(kind) => kind,
            None => return ,
        };
        if text::same_text(kind, "task_started") {
            if let Some(turn_id) = payload.get_text("turn_id") {
                if let Some(at) = stamp {
                    let mcp_calls: Vec<NamedCount> = Vec::new();
                    let skill_calls: Vec<NamedCount> = Vec::new();
                    let seen_call_ids: Vec<String> = Vec::new();
                    assert(counts(mcp_calls@) =~= Seq::<(Seq<char>, int)>::empty());
                    assert(counts(skill_calls@) =~= Seq::<(Seq<char>, int)>::empty());
                    assert(paths::texts(seen_call_ids@) =~= Seq::<Seq<char>>::empty());
                    self.active = Some(
                        ActiveTurn {
                            turn_id: turn_id.to_owned(),
                            session_id: self.session_id.as_str().to_owned(),
                            started_at_ms: at,
                            base_tokens: self.latest_tokens,
                            last_tokens: self.latest_tokens,
                            model_requests: 0,
                            mcp_calls,
                            skill_calls,
                            seen_call_ids,
                        },
                    );
                    assert(self@.turns == old(self)@.turns);
                }
            }
        } else if text::same_text(kind, "token_count") {
            if let Some(snapshot) = parse_token_snapshot(payload) {
                self.latest_tokens = snapshot;
                if let Some(mut turn) = self.active.take() {
                    turn.last_tokens = snapshot;
                    turn.model_requests = turn.model_requests + 1;
                    self.active = Some(turn);
                }
                assert(self@.turns == old(self)@.turns);
            }
        } else if text::same_text(kind, "task_complete") {
            self.end_turn(payload, stamp);
        }
    }

    /// Takes in an event at `stamp` that names `skills`.
    pub fn observe_with(&mut self, value: &Json, stamp: Option<i64>, skills: &Vec<String>)
        requires
            old(self).well_formed(),
            old(self).events < u64::MAX,
        ensures
            final(self).well_formed(),
            final(self)@ == after_value(old(self)@, value@, stamp, paths::texts(skills@)),
    {
        let null = Json::Null;
        let payload = match value.get("payload") {
            Some(payload) => payload,
            None => &null,
        };
        let kind = match value.get_text("type") {
            Some(kind) => kind.to_owned(),
            None => {
                self.events = self.events + 1;
                assert(self@.turns == old(self)@.turns);
                return ;
            },
        };
        if text::same_text(kind.as_str(), "session_meta") {
            if let Some(id) = payload.text_of_either("id", "thread_id") {
                self.session_id = id.to_owned();
            }
        } else if text::same_text(kind.as_str(), "event_msg") {
            self.message(payload, stamp);
        } else if text::same_text(kind.as_str(), "response_item") {
            let item = match payload.get("payload") {
                Some(item) => item,
                None => payload,
            };
            let call = match item.get_text("type") {
                Some(call_type) => text::same_text(call_type, "custom_tool_call")
                    || text::same_text(call_type, "function_call"),
                None => false,
            };
            if call {
                if let Some(mut turn) = self.active.take() {
                    note_call(&mut turn, item, skills, self.events);
                    self.active = Some(turn);
                }
            }
        }
        let ghost reached = self@;
        self.events = self.events + 1;
        assert(self@ == (CollectorFacts { events: self@.events, ..reached }));
    }

    /// Takes in an event.
    pub fn observe(&mut self, value: &Json)
        requires
            old(self).well_formed(),
            old(self).events < u64::MAX,
        ensures
            final(self).well_formed(),
            final(self)@ == after_value(
                old(self)@,
                value@,
                stamp_of(value@),
                skills_of(value@),
            ),
    {
        let stamp = parse_timestamp_ms(value);
        let null = Json::Null;
        let payload = match value.get("payload") {
            Some(payload) => payload,
            None => &null,
        };
        let item = match payload.get("payload") {
            Some(item) => item,
            None => payload,
        };
        let skills = match item.text_of_either("input", "arguments") {
            Some(input) => skill_names(input),
            None => {
                let none: Vec<String> = Vec::new();
                assert(paths::texts(none@) =~= Seq::<Seq<char>>::empty());
                none
            },
        };
        self.observe_with(value, stamp, &skills)
    }

    /// Takes in a line of a log. A line that is no JSON is passed over.
    pub fn observe_line(&mut self, line: &str)
        requires
            old(self).well_formed(),
            old(self).events < u64::MAX,
        ensures
            final(self).well_formed(),
            final(self)@.events <= old(self)@.events + 1,
            final(self)@ == after_line(old(self)@, line@),
    {
        match json::parse_json(line) {
            Ok(value) => self.observe(&value),
            Err(_) => {},
        }
    }
}

impl TurnCollector {
    /// Takes in the lines of a log.
    pub fn collect_file_turns(&mut self, path: &str, lines: &Vec<String>)
        requires
            old(self).well_formed(),
            old(self).events + lines@.len() <= u64::MAX,
        ensures
            final(self).well_formed(),
            final(self)@.events <= old(self)@.events + lines@.len(),
            final(self)@ == after_file(old(self)@, path@, paths::texts(lines@)),
    {
        let ghost all = paths::texts(lines@);
        self.begin_file(path);
        let ghost first = self@;
        let mut i: usize = 0;
        assert(after_lines(first, all.take(0)) == first);
        while i < lines.len()
            invariant
                i <= lines@.len(),
                all == paths::texts(lines@),
                self.well_formed(),
                self.events <= old(self).events + i,
                old(self).events + lines@.len() <= u64::MAX,
                self@ == after_lines(first, all.take(i as int)),
            decreases lines@.len() - i,
        {
            assert(all.take(i + 1).drop_last() =~= all.take(i as int));
            assert(all.take(i + 1).last() == lines@[i as int]@);
            self.observe_line(lines[i].as_str());
            i += 1;
        }
        assert(all.take(all.len() as int) =~= all);
    }
}

/// Whether a log that was last changed at that second can hold turns of the
/// window: a turn may begin up to a day before the window and end inside it.
pub open spec fn recent(modified: Option<u64>, start_date: Option<i64>) -> bool {
    match start_date {
        None => true,
        Some(start) => match modified {
            Some(seconds) => seconds >= start - 86400,
            None => false,
        },
    }
}

/// Whether a log can hold turns of the window.
pub fn is_recent(modified: Option<u64>, start_date: Option<i64>) -> (r: bool)
    ensures
        r == recent(modified, start_date),
{
    match start_date {
        None => true,
        Some(start) => match modified {
            Some(seconds) => {
                let cutoff: i64 = numbers::add_saturating(start, -86400);
                cutoff <= 0 || seconds >= cutoff as u64
            },
            None => false,
        },
    }
}

} // verus!
