//! Reading the session files of DeepSeek Harness, line by line.

use vstd::prelude::*;
use crate::error::{AppError, Fault};
use crate::json;
use crate::json::{Json, JsonTree};
use crate::numbers;
use crate::paths;
use crate::sync;
use crate::sync::{SessionSyncResult, SyncReport};
use crate::text;
use crate::usage;
use crate::usage::{DesktopUsageRecord, UsageRecord};

verus! {

/// The token counts of a final answer.
#[derive(Debug)]
pub struct DeepSeekHarnessUsage {
    pub input_tokens: Option<u64>,
    pub output_tokens: Option<u64>,
    pub cache_read_tokens: Option<u64>,
    pub cache_write_tokens: Option<u64>,
}

/// A session file while it is read: the session and the model that the lines
/// so far name, and the report so far.
#[derive(Debug)]
pub struct HarnessReader {
    pub path: String,
    pub session_id: String,
    pub current_model: String,
    pub result: SessionSyncResult,
}

/// A session file while it is read.
pub struct HarnessState {
    pub path: Seq<char>,
    pub session_id: Seq<char>,
    pub current_model: Seq<char>,
    pub report: SyncReport,
}

impl View for HarnessReader {
    type V = HarnessState;

    open spec fn view(&self) -> HarnessState {
        HarnessState {
            path: self.path@,
            session_id: self.session_id@,
            current_model: self.current_model@,
            report: self.result@,
        }
    }
}

/// What a line asks for.
#[derive(Clone, Copy, Debug, PartialEq, Eq, Structural)]
pub enum HarnessStep {
    Nothing,
    /// The line is a final answer: its usage is to be written down under that
    /// number, at that second.
    Usage { seq: u64, created_at: i64 },
}

/// `name`, unless it is missing or blank.
pub open spec fn renamed(old: Seq<char>, name: Option<Seq<char>>) -> Seq<char> {
    match name {
        Some(value) => if text::blank(value) {
            old
        } else {
            value
        },
        None => old,
    }
}

/// The member of a member.
pub open spec fn nested(event: JsonTree, outer: Seq<char>, inner: Seq<char>) -> Option<JsonTree> {
    match event.get(outer) {
        Some(value) => value.get(inner),
        None => None,
    }
}

/// What an event changes.
pub open spec fn after_event(state: HarnessState, event: JsonTree) -> HarnessState {
    let kind = event.get_text("type"@);
    if kind == Some("session"@) {
        HarnessState {
            session_id: renamed(state.session_id, event.get_text("id"@)),
            ..state
        }
    } else if kind == Some("request/context"@) {
        let model = match nested(event, "data"@, "model"@) {
            Some(value) => value.as_text(),
            None => None,
        };
        HarnessState { current_model: renamed(state.current_model, model), ..state }
    } else {
        state
    }
}

/// What an event asks for.
pub open spec fn step_of(event: JsonTree, line_number: u64) -> HarnessStep {
    if event.get_text("type"@) == Some("assistant/message"@) && nested(event, "data"@, "usage"@)
        is Some {
        HarnessStep::Usage {
            seq: match event.get_u64("seq"@) {
                Some(seq) => seq,
                None => line_number,
            },
            created_at: match event.get_i64("time"@) {
                Some(time) => numbers::thousandth(time),
                None => 0,
            },
        }
    } else {
        HarnessStep::Nothing
    }
}

/// A place in a session file, as errors name it.
pub open spec fn line_place(path: Seq<char>, line_number: u64) -> Seq<char> {
    "DeepSeek Harness 会话 "@ + path + " 第 "@ + text::decimal(line_number as nat)
}

/// The failure of a line that is no JSON.
pub open spec fn line_fault(path: Seq<char>, line_number: u64, error: Seq<char>) -> Fault {
    Fault::Config(line_place(path, line_number) + " 行格式无效: "@ + error)
}

/// The failure of a line whose usage cannot be read.
pub open spec fn usage_fault(path: Seq<char>, line_number: u64, error: Seq<char>) -> Fault {
    Fault::Config(line_place(path, line_number) + " 行 usage 无效: "@ + error)
}

/// The request id of a final answer.
pub open spec fn harness_request_id(session_id: Seq<char>, seq: u64) -> Seq<char> {
    "deepseek_harness_message:"@ + session_id + ":"@ + text::decimal(seq as nat)
}

/// The record of a final answer.
pub open spec fn harness_record(
    state: HarnessState,
    seq: u64,
    created_at: i64,
    usage: DeepSeekHarnessUsage,
) -> UsageRecord {
    UsageRecord {
        request_id: harness_request_id(state.session_id, seq),
        app_type: usage::DEEPSEEK_HARNESS_APP_TYPE@,
        data_source: usage::DEEPSEEK_HARNESS_DATA_SOURCE@,
        provider_id: "_deepseek_harness_session"@,
        model: state.current_model,
        session_id: Some(state.session_id),
        input_tokens: usage::token_count(usage.input_tokens),
        output_tokens: usage::token_count(usage.output_tokens),
        cache_read_tokens: usage::token_count(usage.cache_read_tokens),
        cache_creation_tokens: usage::token_count(usage.cache_write_tokens),
        total_cost_usd: None,
        latency_ms: 0,
        duration_ms: None,
        first_token_ms: None,
        status_code: 200,
        error_message: None,
        created_at,
        upstream: None,
    }
}

/// Whether no token was used at all.
pub open spec fn no_tokens(usage: DeepSeekHarnessUsage) -> bool {
    &&& usage::token_count(usage.input_tokens) == 0
    &&& usage::token_count(usage.output_tokens) == 0
    &&& usage::token_count(usage.cache_read_tokens) == 0
    &&& usage::token_count(usage.cache_write_tokens) == 0
}

/// The error for an answer without a time.
pub open spec fn untimed(session_id: Seq<char>, seq: u64) -> Seq<char> {
    "DeepSeek Harness session "@ + session_id + " seq "@ + text::decimal(seq as nat)
        + ": 缺少有效时间戳"@
}

/// The place of a line, as errors name it.
fn place_of(path: &str, line_number: u64) -> (r: String)
    ensures
        r@ == line_place(path@, line_number),
{
    let head = text::joined3("DeepSeek Harness 会话 ", path, " 第 ");
    text::joined(head.as_str(), text::decimal_of(line_number).as_str())
}

fn member_of_member<'a>(event: &'a Json, outer: &str, inner: &str) -> (r: Option<&'a Json>)
    ensures
        json::opt_json(r) == nested(event@, outer@, inner@),
{
    match event.get(outer) {
        Some(value) => value.get(inner),
        None => None,
    }
}

impl HarnessReader {
    /// Begins to read a file. Until a line names the session, it goes by the
    /// directory of the file.
    pub fn new(path: &str) -> (r: HarnessReader)
        ensures
            r@ == (HarnessState {
                path: path@,
                session_id: match paths::parent_name_of(path@) {
                    Some(name) => name,
                    None => "unknown"@,
                },
                current_model: "unknown"@,
                report: sync::nothing_in(1),
            }),
    {
        let session_id = match paths::parent_name(path) {
            Some(name) => name,
            None => "unknown".to_owned(),
        };
        HarnessReader {
            path: path.to_owned(),
            session_id,
            current_model: "unknown".to_owned(),
            result: sync::empty_result(1),
        }
    }

    /// Takes in an event.
    pub fn event(&mut self, line_number: u64, event: &Json) -> (r: HarnessStep)
        ensures
            final(self)@ == after_event(old(self)@, event@),
            r == step_of(event@, line_number),
    {
        let kind = match event.get_text("type") {
            Some(kind) => kind,
            None => return HarnessStep::Nothing,
        };
        if text::same_text(kind, "session") {
            proof {
                lemma_kinds();
            }
            if let Some(id) = event.get_text("id") {
                if !text::is_blank(id) {
                    self.session_id = id.to_owned();
                }
            }
            return HarnessStep::Nothing;
        }
        if text::same_text(kind, "request/context") {
            proof {
                lemma_kinds();
            }
            if let Some(value) = member_of_member(event, "data", "model") {
                if let Some(model) = value.as_text() {
                    if !text::is_blank(model) {
                        self.current_model = model.to_owned();
                    }
                }
            }
            return HarnessStep::Nothing;
        }
        if !text::same_text(kind, "assistant/message") || member_of_member(
            event,
            "data",
            "usage",
        ).is_none() {
            return HarnessStep::Nothing;
        }
        let seq: u64 = match event.get_u64("seq") {
            Some(seq) => seq,
            None => line_number,
        };
        let created_at: i64 = match event.get_i64("time") {
            Some(time) => numbers::whole_seconds(time),
            None => 0,
        };
        HarnessStep::Usage { seq, created_at }
    }

    /// Takes in a line. A blank line is passed over; one that is no JSON
    /// fails the file.
    pub fn line(&mut self, line_number: u64, line: &str) -> (r: Result<HarnessStep, AppError>)
        ensures
            if text::blank(line@) {
                final(self)@ == old(self)@ && r == Ok::<HarnessStep, AppError>(
                    HarnessStep::Nothing,
                )
            } else {
                match json::parsed_json(line@) {
                    Ok(event) => final(self)@ == after_event(old(self)@, event) && r == Ok::<
                        HarnessStep,
                        AppError,
                    >(step_of(event, line_number)),
                    Err(error) => final(self)@ == old(self)@ && (r matches Err(e) && e@
                        == line_fault(old(self)@.path, line_number, error)),
                }
            },
    {
        if text::is_blank(line) {
            return Ok(HarnessStep::Nothing);
        }
        match json::parse_json(line) {
            Ok(event) => Ok(self.event(line_number, &event)),
            Err(error) => {
                let place = place_of(self.path.as_str(), line_number);
                Err(
                    AppError::Config(
                        text::joined3(place.as_str(), " 行格式无效: ", error.as_str()),
                    ),
                )
            },
        }
    }

    /// The failure of a line whose usage cannot be read.
    pub fn usage_error(&self, line_number: u64, error: &str) -> (r: AppError)
        ensures
            r@ == usage_fault(self@.path, line_number, error@),
    {
        let place = place_of(self.path.as_str(), line_number);
        AppError::Config(text::joined3(place.as_str(), " 行 usage 无效: ", error))
    }

    /// Takes in the usage of a final answer. Without tokens it is skipped,
    /// without a time it is an error, and otherwise its record is to be
    /// written.
    pub fn usage(&mut self, seq: u64, created_at: i64, usage: &DeepSeekHarnessUsage) -> (r: Option<
        DesktopUsageRecord,
    >)
        ensures
            if no_tokens(*usage) {
                r is None && final(self)@ == (HarnessState {
                    report: old(self)@.report.with_skipped(),
                    ..old(self)@
                })
            } else if created_at <= 0 {
                r is None && final(self)@ == (HarnessState {
                    report: old(self)@.report.with_error(untimed(old(self)@.session_id, seq)),
                    ..old(self)@
                })
            } else {
                final(self)@ == old(self)@ && usage::opt_record(r) == Some(
                    harness_record(old(self)@, seq, created_at, *usage),
                )
            },
    {
        let input_tokens: u32 = usage::token_u32(usage.input_tokens);
        let output_tokens: u32 = usage::token_u32(usage.output_tokens);
        let cache_read_tokens: u32 = usage::token_u32(usage.cache_read_tokens);
        let cache_creation_tokens: u32 = usage::token_u32(usage.cache_write_tokens);
        if input_tokens == 0 && output_tokens == 0 && cache_read_tokens == 0
            && cache_creation_tokens == 0 {
            self.result.add_skipped();
            return None;
        }
        let number = text::decimal_of(seq);
        if created_at <= 0 {
            let head = text::joined3(
                "DeepSeek Harness session ",
                self.session_id.as_str(),
                " seq ",
            );
            self.result.add_error(
                text::joined3(head.as_str(), number.as_str(), ": 缺少有效时间戳"),
            );
            return None;
        }
        let head = text::joined3("deepseek_harness_message:", self.session_id.as_str(), ":");
        Some(
            DesktopUsageRecord {
                request_id: text::joined(head.as_str(), number.as_str()),
                app_type: usage::DEEPSEEK_HARNESS_APP_TYPE.to_owned(),
                data_source: usage::DEEPSEEK_HARNESS_DATA_SOURCE.to_owned(),
                provider_id: "_deepseek_harness_session".to_owned(),
                model: self.current_model.as_str().to_owned(),
                session_id: Some(self.session_id.as_str().to_owned()),
                input_tokens,
                output_tokens,
                cache_read_tokens,
                cache_creation_tokens,
                total_cost_usd: None,
                latency_ms: 0,
                duration_ms: None,
                first_token_ms: None,
                status_code: 200,
                error_message: None,
                created_at,
                upstream_dedup: None,
            },
        )
    }

    /// Notes whether a record was written.
    pub fn written(&mut self, inserted: bool)
        ensures
            final(self)@ == (HarnessState {
                report: if inserted {
                    old(self)@.report.with_imported()
                } else {
                    old(self)@.report.with_skipped()
                },
                ..old(self)@
            }),
    {
        if inserted {
            self.result.add_imported();
        } else {
            self.result.add_skipped();
        }
    }

    /// Whether the file counts as read: nothing was wrong with it.
    pub fn is_clean(&self) -> (r: bool)
        ensures
            r == (self@.report.errors.len() == 0),
    {
        assert(self@.report.errors.len() == self.result.errors@.len());
        self.result.errors.len() == 0
    }
}

/// The kinds of events have different names.
proof fn lemma_kinds()
    ensures
        "session"@ != "request/context"@,
        "session"@ != "assistant/message"@,
        "request/context"@ != "assistant/message"@,
{
    reveal_strlit("session");
    reveal_strlit("request/context");
    reveal_strlit("assistant/message");
    assert("session"@.len() == 7);
    assert("request/context"@.len() == 15);
    assert("assistant/message"@.len() == 17);
}

/// The name under which the state of a session file is kept.
pub fn harness_sync_key(path: &str) -> (r: String)
    ensures
        r@ == "desktop:deepseek-harness:"@ + path@,
{
    text::joined("desktop:deepseek-harness:", path)
}

/// Whether a file of that name holds a session.
pub fn is_session_file(name: &str) -> (r: bool)
    ensures
        r == (name@ == "session.jsonl.zstd"@),
{
    text::same_text(name, "session.jsonl.zstd")
}

/// The session that the lines name last, passing over blank names.
pub open spec fn session_after(first: Seq<char>, events: Seq<JsonTree>) -> Seq<char>
    decreases events.len(),
{
    if events.len() == 0 {
        first
    } else {
        let before = session_after(first, events.drop_last());
        if events.last().get_text("type"@) == Some("session"@) {
            renamed(before, events.last().get_text("id"@))
        } else {
            before
        }
    }
}

/// The state after events, one by one.
pub open spec fn after_events(state: HarnessState, events: Seq<JsonTree>) -> HarnessState
    decreases events.len(),
{
    if events.len() == 0 {
        state
    } else {
        after_event(after_events(state, events.drop_last()), events.last())
    }
}

/// Events change neither the file's path nor the report; they name the
/// session and the model, and the last name that is not blank counts.
pub proof fn law_events_only_name(state: HarnessState, events: Seq<JsonTree>)
    ensures
        after_events(state, events).path == state.path,
        after_events(state, events).report == state.report,
        after_events(state, events).session_id == session_after(state.session_id, events),
    decreases events.len(),
{
    if events.len() > 0 {
        law_events_only_name(state, events.drop_last());
    }
}

/// No two answers go by one request id, so a session that is read again is
/// known again.
pub proof fn law_request_ids_tell_answers_apart(a: Seq<char>, x: u64, b: Seq<char>, y: u64)
    ensures
        (harness_request_id(a, x) == harness_request_id(b, y)) == (a == b && x == y),
{
    let head = "deepseek_harness_message:"@;
    let m = text::decimal(x as nat);
    let n = text::decimal(y as nat);
    let left = harness_request_id(a, x);
    let right = harness_request_id(b, y);
    text::law_decimal_is_digits(x as nat);
    text::law_decimal_is_digits(y as nat);
    reveal_strlit(":");
    assert(":"@.len() == 1);
    assert(":"@[0] == ':');
    if left == right {
        assert(left[left.len() - 1 - m.len()] == ':');
        assert(right[right.len() - 1 - n.len()] == ':');
        if m.len() < n.len() {
            assert(right[right.len() - 1 - m.len()] == n[n.len() - 1 - m.len()]);
        } else if n.len() < m.len() {
            assert(left[left.len() - 1 - n.len()] == m[m.len() - 1 - n.len()]);
        }
        assert(left.skip(left.len() - m.len()) =~= m);
        assert(right.skip(right.len() - n.len()) =~= n);
        text::law_decimal_tells_numbers_apart(x as nat, y as nat);
        assert(left.subrange(head.len() as int, left.len() - 1 - m.len()) =~= a);
        assert(right.subrange(head.len() as int, right.len() - 1 - n.len()) =~= b);
    }
}

/// Calls of different agents never go by one request id.
pub proof fn law_agents_share_no_request_id(
    attempt: Seq<char>,
    message: Seq<char>,
    session: Seq<char>,
    seq: u64,
)
    ensures
        usage::maka_request_id(attempt) != usage::codepilot_request_id(message),
        usage::maka_request_id(attempt) != harness_request_id(session, seq),
        usage::codepilot_request_id(message) != harness_request_id(session, seq),
{
    reveal_strlit("maka_attempt:");
    reveal_strlit("codepilot_message:");
    reveal_strlit("deepseek_harness_message:");
    assert(usage::maka_request_id(attempt)[0] == 'm');
    assert(usage::codepilot_request_id(message)[0] == 'c');
    assert(harness_request_id(session, seq)[0] == 'd');
}

/// An event that names a model: a context of a request whose data has a model
/// that is a text and not blank.
pub open spec fn names_model(event: JsonTree, model: Seq<char>) -> bool {
    &&& event.get("type"@) == Some(JsonTree::Text("request/context"@))
    &&& event.get("data"@) matches Some(data) && data.get("model"@) == Some(JsonTree::Text(model))
    &&& exists|k: int| 0 <= k < model.len() && !text::white_space(#[trigger] model[k])
}

/// An event that names the session: one of that type whose id is a text and
/// not blank.
pub open spec fn names_session(event: JsonTree, id: Seq<char>) -> bool {
    &&& event.get("type"@) == Some(JsonTree::Text("session"@))
    &&& event.get("id"@) == Some(JsonTree::Text(id))
    &&& exists|k: int| 0 <= k < id.len() && !text::white_space(#[trigger] id[k])
}

proof fn lemma_one_event(state: HarnessState, event: JsonTree)
    ensures
        forall|model: Seq<char>|
            #[trigger] names_model(event, model) ==> after_event(state, event).current_model
                == model,
        (forall|model: Seq<char>| !#[trigger] names_model(event, model)) ==> after_event(
            state,
            event,
        ).current_model == state.current_model,
        forall|id: Seq<char>|
            #[trigger] names_session(event, id) ==> after_event(state, event).session_id == id,
        (forall|id: Seq<char>| !#[trigger] names_session(event, id)) ==> after_event(
            state,
            event,
        ).session_id == state.session_id,
{
    lemma_kinds();
    if let Some(data) = event.get("data"@) {
        if let Some(JsonTree::Text(model)) = data.get("model"@) {
            text::law_blank(model);
            if after_event(state, event).current_model != state.current_model {
                assert(names_model(event, model));
            }
        }
    }
    if let Some(JsonTree::Text(id)) = event.get("id"@) {
        text::law_blank(id);
        if after_event(state, event).session_id != state.session_id {
            assert(names_session(event, id));
        }
    }
}

/// After any events the current model is the one that was named last, and
/// where none was named, the one from before.
pub proof fn law_current_model_is_the_last_named(
    state: HarnessState,
    events: Seq<JsonTree>,
    i: int,
    model: Seq<char>,
)
    ensures
        0 <= i < events.len() && names_model(events[i], model) && (forall|k: int, other: Seq<char>|
            i < k < events.len() ==> !#[trigger] names_model(events[k], other)) ==> after_events(
            state,
            events,
        ).current_model == model,
        (forall|k: int, other: Seq<char>|
            0 <= k < events.len() ==> !#[trigger] names_model(events[k], other)) ==> after_events(
            state,
            events,
        ).current_model == state.current_model,
    decreases events.len(),
{
    if events.len() > 0 {
        let fewer = events.drop_last();
        let last = events.len() - 1;
        let before = after_events(state, fewer);
        lemma_one_event(before, events.last());
        law_current_model_is_the_last_named(state, fewer, i, model);
        assert(events.last() == events[last]);
        if 0 <= i < last && names_model(events[i], model) && (forall|k: int, other: Seq<char>|
            i < k < events.len() ==> !#[trigger] names_model(events[k], other)) {
            assert(fewer[i] == events[i]);
            assert forall|k: int, other: Seq<char>| i < k < fewer.len() implies !#[trigger] names_model(
                fewer[k],
                other,
            ) by {
                assert(fewer[k] == events[k]);
            }
            assert forall|other: Seq<char>| !#[trigger] names_model(events.last(), other) by {
                assert(!names_model(events[last], other));
            }
        }
        if forall|k: int, other: Seq<char>|
            0 <= k < events.len() ==> !#[trigger] names_model(events[k], other) {
            assert forall|k: int, other: Seq<char>| 0 <= k < fewer.len() implies !#[trigger] names_model(
                fewer[k],
                other,
            ) by {
                assert(fewer[k] == events[k]);
            }
            assert forall|other: Seq<char>| !#[trigger] names_model(events.last(), other) by {
                assert(!names_model(events[last], other));
            }
        }
    }
}

/// After any events the session is the one that was named last, and where none
/// was named, the one from before.
pub proof fn law_session_is_the_last_named(
    state: HarnessState,
    events: Seq<JsonTree>,
    i: int,
    id: Seq<char>,
)
    ensures
        0 <= i < events.len() && names_session(events[i], id) && (forall|k: int, other: Seq<char>|
            i < k < events.len() ==> !#[trigger] names_session(events[k], other)) ==> after_events(
            state,
            events,
        ).session_id == id,
        (forall|k: int, other: Seq<char>|
            0 <= k < events.len() ==> !#[trigger] names_session(events[k], other)) ==> after_events(
            state,
            events,
        ).session_id == state.session_id,
    decreases events.len(),
{
    if events.len() > 0 {
        let fewer = events.drop_last();
        let last = events.len() - 1;
        let before = after_events(state, fewer);
        lemma_one_event(before, events.last());
        law_session_is_the_last_named(state, fewer, i, id);
        assert(events.last() == events[last]);
        if 0 <= i < last && names_session(events[i], id) && (forall|k: int, other: Seq<char>|
            i < k < events.len() ==> !#[trigger] names_session(events[k], other)) {
            assert(fewer[i] == events[i]);
            assert forall|k: int, other: Seq<char>| i < k < fewer.len() implies !#[trigger] names_session(
                fewer[k],
                other,
            ) by {
                assert(fewer[k] == events[k]);
            }
            assert forall|other: Seq<char>| !#[trigger] names_session(events.last(), other) by {
                assert(!names_session(events[last], other));
            }
        }
        if forall|k: int, other: Seq<char>|
            0 <= k < events.len() ==> !#[trigger] names_session(events[k], other) {
            assert forall|k: int, other: Seq<char>| 0 <= k < fewer.len() implies !#[trigger] names_session(
                fewer[k],
                other,
            ) by {
                assert(fewer[k] == events[k]);
            }
            assert forall|other: Seq<char>| !#[trigger] names_session(events.last(), other) by {
                assert(!names_session(events[last], other));
            }
        }
    }
}

/// The record of an answer has the model and the session that the events
/// before it named last, and its own tokens, time and number. It is a success
/// of DeepSeek Harness's and its cost is left to be worked out.
pub proof fn law_answer_is_recorded_under_the_current_model(
    state: HarnessState,
    events: Seq<JsonTree>,
    i: int,
    model: Seq<char>,
    j: int,
    id: Seq<char>,
    seq: u64,
    created_at: i64,
    usage: DeepSeekHarnessUsage,
)
    requires
        0 <= i < events.len(),
        names_model(events[i], model),
        forall|k: int, other: Seq<char>|
            i < k < events.len() ==> !#[trigger] names_model(events[k], other),
        0 <= j < events.len(),
        names_session(events[j], id),
        forall|k: int, other: Seq<char>|
            j < k < events.len() ==> !#[trigger] names_session(events[k], other),
    ensures
        ({
            let record = harness_record(after_events(state, events), seq, created_at, usage);
            &&& record.model == model
            &&& record.session_id == Some(id)
            &&& record.request_id == "deepseek_harness_message:"@ + id + ":"@ + text::decimal(
                seq as nat,
            )
            &&& record.created_at == created_at
            &&& usage.input_tokens matches Some(n) ==> record.input_tokens == if n <= u32::MAX {
                n
            } else {
                u32::MAX as u64
            }
            &&& usage.output_tokens matches Some(n) ==> record.output_tokens == if n <= u32::MAX {
                n
            } else {
                u32::MAX as u64
            }
            &&& usage.cache_read_tokens matches Some(n) ==> record.cache_read_tokens == if n <= u32::MAX {
                n
            } else {
                u32::MAX as u64
            }
            &&& usage.cache_write_tokens matches Some(n) ==> record.cache_creation_tokens == if n <= u32::MAX {
                n
            } else {
                u32::MAX as u64
            }
            &&& usage.input_tokens is None ==> record.input_tokens == 0
            &&& usage.output_tokens is None ==> record.output_tokens == 0
            &&& usage.cache_read_tokens is None ==> record.cache_read_tokens == 0
            &&& usage.cache_write_tokens is None ==> record.cache_creation_tokens == 0
            &&& record.app_type == "deepseek_harness"@
            &&& record.data_source == "deepseek_harness_session"@
            &&& record.provider_id == "_deepseek_harness_session"@
            &&& record.status_code == 200
            &&& record.error_message is None
            &&& record.total_cost_usd is None
            &&& record.upstream is None
        }),
{
    law_current_model_is_the_last_named(state, events, i, model);
    law_session_is_the_last_named(state, events, j, id);
}

/// A line asks for its usage to be written down where, and only where, it is a
/// message of the assistant with usage. It goes by its own number, or else by
/// that of the line, and its time is cut to whole seconds.
pub proof fn law_answers_with_usage_are_taken(event: JsonTree, line_number: u64)
    ensures
        step_of(event, line_number) != HarnessStep::Nothing <==> event.get("type"@) == Some(
            JsonTree::Text("assistant/message"@),
        ) && (event.get("data"@) matches Some(data) && data.get("usage"@) is Some),
        step_of(event, line_number) matches HarnessStep::Usage { seq, created_at } ==> {
            &&& event.get("seq"@) matches Some(JsonTree::Number(json::JsonNumber::Unsigned(n)))
                ==> seq == n
            &&& event.get("seq"@) is None ==> seq == line_number
            &&& event.get("time"@) matches Some(JsonTree::Number(json::JsonNumber::Unsigned(ms)))
                ==> if ms <= i64::MAX {
                created_at * 1000 <= ms < created_at * 1000 + 1000
            } else {
                created_at == 0
            }
            &&& event.get("time"@) is None ==> created_at == 0
        },
{
}

/// An answer counts as without tokens where none of its four counts is there
/// and above zero.
pub proof fn law_answers_without_tokens(usage: DeepSeekHarnessUsage)
    ensures
        no_tokens(usage) <==> {
            &&& usage.input_tokens is None || usage.input_tokens == Some(0u64)
            &&& usage.output_tokens is None || usage.output_tokens == Some(0u64)
            &&& usage.cache_read_tokens is None || usage.cache_read_tokens == Some(0u64)
            &&& usage.cache_write_tokens is None || usage.cache_write_tokens == Some(0u64)
        },
{
}

/// A line that cannot be read, a usage that cannot be read and an answer
/// without a time are each named by what they are and where they stand.
pub proof fn law_faulty_lines_are_named(
    path: Seq<char>,
    line_number: u64,
    error: Seq<char>,
    session_id: Seq<char>,
    seq: u64,
)
    ensures
        line_fault(path, line_number, error) == Fault::Config(
            "DeepSeek Harness 会话 "@ + path + " 第 "@ + text::decimal(line_number as nat)
                + " 行格式无效: "@ + error,
        ),
        usage_fault(path, line_number, error) == Fault::Config(
            "DeepSeek Harness 会话 "@ + path + " 第 "@ + text::decimal(line_number as nat)
                + " 行 usage 无效: "@ + error,
        ),
        untimed(session_id, seq) == "DeepSeek Harness session "@ + session_id + " seq "@
            + text::decimal(seq as nat) + ": 缺少有效时间戳"@,
{
}

} // verus!
