//! What is handed on of a proxied request: how much it used, and nothing of
//! what was said.

use vstd::prelude::*;
use crate::json::{Json, JsonNumber, JsonTree};
use crate::paths;
use crate::text;

verus! {

/// What the proxy notes of a request.
#[derive(Debug)]
pub struct RequestLog {
    pub request_id: String,
    pub session_id: Option<String>,
    pub provider_id: String,
    pub model: String,
    pub input_tokens: u32,
    pub output_tokens: u32,
    pub cache_read_tokens: u32,
    pub cache_creation_tokens: u32,
    pub latency_ms: u64,
    pub status_code: u16,
    /// The cost in dollars as a decimal text.
    pub total_cost: Option<String>,
}

/// What is handed on of a request.
#[derive(Debug)]
pub struct SpoolEvent {
    pub schema_version: u8,
    pub event_id: String,
    pub occurred_at: i64,
    pub source_app: String,
    pub source_version: String,
    pub request_id: String,
    pub session_id: Option<String>,
    pub provider_id: String,
    pub model: String,
    pub input_tokens: u32,
    pub output_tokens: u32,
    pub cache_read_tokens: u32,
    pub cache_write_tokens: u32,
    pub latency_ms: u64,
    pub status_code: u16,
    pub reported_cost_usd: Option<String>,
    pub data_source: String,
}

/// A text, or null.
pub open spec fn text_or_null(value: Option<Seq<char>>) -> JsonTree {
    match value {
        Some(text) => JsonTree::Text(text),
        None => JsonTree::Null,
    }
}

/// A natural number.
pub open spec fn natural(n: u64) -> JsonTree {
    JsonTree::Number(JsonNumber::Unsigned(n))
}

/// An integer.
pub open spec fn integer(n: i64) -> JsonTree {
    if n >= 0 {
        JsonTree::Number(JsonNumber::Unsigned(n as u64))
    } else {
        JsonTree::Number(JsonNumber::Negative(n))
    }
}

/// The members of an event, which are all that is handed on.
pub open spec fn event_members(event: SpoolEvent) -> Seq<(Seq<char>, JsonTree)> {
    seq![
        ("schema_version"@, natural(event.schema_version as u64)),
        ("event_id"@, JsonTree::Text(event.event_id@)),
        ("occurred_at"@, integer(event.occurred_at)),
        ("source_app"@, JsonTree::Text(event.source_app@)),
        ("source_version"@, JsonTree::Text(event.source_version@)),
        ("request_id"@, JsonTree::Text(event.request_id@)),
        ("session_id"@, text_or_null(text::opt_text(event.session_id))),
        ("provider_id"@, JsonTree::Text(event.provider_id@)),
        ("model"@, JsonTree::Text(event.model@)),
        ("input_tokens"@, natural(event.input_tokens as u64)),
        ("output_tokens"@, natural(event.output_tokens as u64)),
        ("cache_read_tokens"@, natural(event.cache_read_tokens as u64)),
        ("cache_write_tokens"@, natural(event.cache_write_tokens as u64)),
        ("latency_ms"@, natural(event.latency_ms)),
        ("status_code"@, natural(event.status_code as u64)),
        ("reported_cost_usd"@, text_or_null(text::opt_text(event.reported_cost_usd))),
        ("data_source"@, JsonTree::Text(event.data_source@)),
    ]
}

/// What members say.
pub open spec fn members_of(members: Seq<(String, Json)>) -> Seq<(Seq<char>, JsonTree)> {
    members.map_values(|m: (String, Json)| (m.0@, m.1@))
}

fn put(members: &mut Vec<(String, Json)>, name: &str, value: Json)
    ensures
        members_of(final(members)@) == members_of(old(members)@).push((name@, value@)),
{
    let ghost before = members_of(members@);
    let ghost tree = value@;
    members.push((name.to_owned(), value));
    assert(members_of(members@) =~= before.push((name@, tree)));
}

fn put_text(members: &mut Vec<(String, Json)>, name: &str, value: &String)
    ensures
        members_of(final(members)@) == members_of(old(members)@).push(
            (name@, JsonTree::Text(value@)),
        ),
{
    put(members, name, Json::Text(value.as_str().to_owned()));
}

fn put_optional(members: &mut Vec<(String, Json)>, name: &str, value: &Option<String>)
    ensures
        members_of(final(members)@) == members_of(old(members)@).push(
            (name@, text_or_null(text::opt_text(*value))),
        ),
{
    let json = match value {
        Some(value) => Json::Text(value.as_str().to_owned()),
        None => Json::Null,
    };
    put(members, name, json);
}

fn put_natural(members: &mut Vec<(String, Json)>, name: &str, value: u64)
    ensures
        members_of(final(members)@) == members_of(old(members)@).push((name@, natural(value))),
{
    put(members, name, Json::Number(JsonNumber::Unsigned(value)));
}

impl SpoolEvent {
    /// The event as a document.
    pub fn to_json(&self) -> (r: Json)
        ensures
            r@ == JsonTree::Object(event_members(*self)),
    {
        let occurred_at = if self.occurred_at >= 0 {
            Json::Number(JsonNumber::Unsigned(self.occurred_at as u64))
        } else {
            Json::Number(JsonNumber::Negative(self.occurred_at))
        };
        let mut members: Vec<(String, Json)> = Vec::new();
        assert(members_of(members@) =~= Seq::<(Seq<char>, JsonTree)>::empty());
        put_natural(&mut members, "schema_version", self.schema_version as u64);
        put_text(&mut members, "event_id", &self.event_id);
        put(&mut members, "occurred_at", occurred_at);
        put_text(&mut members, "source_app", &self.source_app);
        put_text(&mut members, "source_version", &self.source_version);
        put_text(&mut members, "request_id", &self.request_id);
        put_optional(&mut members, "session_id", &self.session_id);
        put_text(&mut members, "provider_id", &self.provider_id);
        put_text(&mut members, "model", &self.model);
        put_natural(&mut members, "input_tokens", self.input_tokens as u64);
        put_natural(&mut members, "output_tokens", self.output_tokens as u64);
        put_natural(&mut members, "cache_read_tokens", self.cache_read_tokens as u64);
        put_natural(&mut members, "cache_write_tokens", self.cache_write_tokens as u64);
        put_natural(&mut members, "latency_ms", self.latency_ms);
        put_natural(&mut members, "status_code", self.status_code as u64);
        put_optional(&mut members, "reported_cost_usd", &self.reported_cost_usd);
        put_text(&mut members, "data_source", &self.data_source);
        assert(members_of(members@) == event_members(*self));
        let ghost trees = members_of(members@);
        let json = Json::Object(members);
        assert(json@->Object_0 =~= trees);
        json
    }
}

fn copy_of(value: &Option<String>) -> (r: Option<String>)
    ensures
        text::opt_text(r) == text::opt_text(*value),
{
    match value {
        Some(text) => Some(text.as_str().to_owned()),
        None => None,
    }
}

/// What is handed on of a request.
pub fn proxy_event(log: &RequestLog, occurred_at: i64, source_version: &str) -> (r: SpoolEvent)
    ensures
        r.schema_version == 1,
        r.event_id@ == "ccswitch:"@ + log.request_id@,
        r.occurred_at == occurred_at,
        r.source_app@ == "cc-switch"@,
        r.source_version@ == source_version@,
        r.request_id@ == log.request_id@,
        text::opt_text(r.session_id) == text::opt_text(log.session_id),
        r.provider_id@ == log.provider_id@,
        r.model@ == log.model@,
        r.input_tokens == log.input_tokens,
        r.output_tokens == log.output_tokens,
        r.cache_read_tokens == log.cache_read_tokens,
        r.cache_write_tokens == log.cache_creation_tokens,
        r.latency_ms == log.latency_ms,
        r.status_code == log.status_code,
        text::opt_text(r.reported_cost_usd) == text::opt_text(log.total_cost),
        r.data_source@ == "ccswitch_proxy"@,
{
    SpoolEvent {
        schema_version: 1,
        event_id: text::joined("ccswitch:", log.request_id.as_str()),
        occurred_at,
        source_app: "cc-switch".to_owned(),
        source_version: source_version.to_owned(),
        request_id: log.request_id.as_str().to_owned(),
        session_id: copy_of(&log.session_id),
        provider_id: log.provider_id.as_str().to_owned(),
        model: log.model.as_str().to_owned(),
        input_tokens: log.input_tokens,
        output_tokens: log.output_tokens,
        cache_read_tokens: log.cache_read_tokens,
        cache_write_tokens: log.cache_creation_tokens,
        latency_ms: log.latency_ms,
        status_code: log.status_code,
        reported_cost_usd: copy_of(&log.total_cost),
        data_source: "ccswitch_proxy".to_owned(),
    }
}

/// The directory that events are handed on in.
pub fn spool_dir(home: &str) -> (r: String)
    ensures
        r@ == paths::inside(home@, ".local-ai-stack/spool/cc-switch"@),
{
    paths::join_path(home, ".local-ai-stack/spool/cc-switch")
}

/// The file of a day's events.
pub fn spool_file(dir: &str, day: &str) -> (r: String)
    ensures
        r@ == paths::inside(dir@, "events-"@ + day@ + ".jsonl"@),
{
    paths::join_path(dir, text::joined3("events-", day, ".jsonl").as_str())
}

/// The names of what is handed on.
pub open spec fn event_names() -> Seq<Seq<char>> {
    seq![
        "schema_version"@,
        "event_id"@,
        "occurred_at"@,
        "source_app"@,
        "source_version"@,
        "request_id"@,
        "session_id"@,
        "provider_id"@,
        "model"@,
        "input_tokens"@,
        "output_tokens"@,
        "cache_read_tokens"@,
        "cache_write_tokens"@,
        "latency_ms"@,
        "status_code"@,
        "reported_cost_usd"@,
        "data_source"@,
    ]
}

/// Every event hands on the same metadata and nothing else: neither prompts
/// nor answers nor keys have a place in it.
pub proof fn law_event_holds_metadata_only(event: SpoolEvent)
    ensures
        event_members(event).map_values(|m: (Seq<char>, JsonTree)| m.0) == event_names(),
{
    assert(event_members(event).map_values(|m: (Seq<char>, JsonTree)| m.0) =~= event_names());
}

/// An event hands on just what it says: each number and each text under its own
/// name, and null for what is not there.
pub proof fn law_event_hands_on_what_it_says(event: SpoolEvent)
    ensures
        ({
            let members = event_members(event);
            &&& members[0] == ("schema_version"@, JsonTree::Number(
                JsonNumber::Unsigned(event.schema_version as u64),
            ))
            &&& members[1] == ("event_id"@, JsonTree::Text(event.event_id@))
            &&& event.occurred_at >= 0 ==> members[2] == ("occurred_at"@, JsonTree::Number(
                JsonNumber::Unsigned(event.occurred_at as u64),
            ))
            &&& event.occurred_at < 0 ==> members[2] == ("occurred_at"@, JsonTree::Number(
                JsonNumber::Negative(event.occurred_at),
            ))
            &&& members[3] == ("source_app"@, JsonTree::Text(event.source_app@))
            &&& members[4] == ("source_version"@, JsonTree::Text(event.source_version@))
            &&& members[5] == ("request_id"@, JsonTree::Text(event.request_id@))
            &&& members[6].0 == "session_id"@
            &&& event.session_id matches Some(id) ==> members[6].1 == JsonTree::Text(id@)
            &&& event.session_id is None ==> members[6].1 is Null
            &&& members[7] == ("provider_id"@, JsonTree::Text(event.provider_id@))
            &&& members[8] == ("model"@, JsonTree::Text(event.model@))
            &&& members[9] == ("input_tokens"@, JsonTree::Number(
                JsonNumber::Unsigned(event.input_tokens as u64),
            ))
            &&& members[10] == ("output_tokens"@, JsonTree::Number(
                JsonNumber::Unsigned(event.output_tokens as u64),
            ))
            &&& members[11] == ("cache_read_tokens"@, JsonTree::Number(
                JsonNumber::Unsigned(event.cache_read_tokens as u64),
            ))
            &&& members[12] == ("cache_write_tokens"@, JsonTree::Number(
                JsonNumber::Unsigned(event.cache_write_tokens as u64),
            ))
            &&& members[13] == ("latency_ms"@, JsonTree::Number(
                JsonNumber::Unsigned(event.latency_ms),
            ))
            &&& members[14] == ("status_code"@, JsonTree::Number(
                JsonNumber::Unsigned(event.status_code as u64),
            ))
            &&& members[15].0 == "reported_cost_usd"@
            &&& event.reported_cost_usd matches Some(cost) ==> members[15].1 == JsonTree::Text(
                cost@,
            )
            &&& event.reported_cost_usd is None ==> members[15].1 is Null
            &&& members[16] == ("data_source"@, JsonTree::Text(event.data_source@))
            &&& members.len() == 17
        }),
{
}

} // verus!
