//! Usage records of desktop agents: what is written down of one model call.

use vstd::prelude::*;
use crate::clock;
use crate::error::{AppError, Fault};
use crate::numbers;
use crate::text;

verus! {

pub const MAKA_APP_TYPE: &'static str = "maka";

pub const MAKA_DATA_SOURCE: &'static str = "maka_session";

pub const CODEPILOT_APP_TYPE: &'static str = "codepilot";

pub const CODEPILOT_DATA_SOURCE: &'static str = "codepilot_session";

pub const DEEPSEEK_HARNESS_APP_TYPE: &'static str = "deepseek_harness";

pub const DEEPSEEK_HARNESS_DATA_SOURCE: &'static str = "deepseek_harness_session";

pub const CINDY_APP_TYPE: &'static str = "cindy";

pub const CINDY_PROVIDER_ID: &'static str = "_cindy_session";

pub const CINDY_LEGACY_DATA_SOURCE: &'static str = "cindy_daily";

pub const CINDY_DETAIL_DATA_SOURCE: &'static str = "cindy_turn";

pub const CINDY_SOURCE_SET_SYNC_KEY: &'static str = "desktop:cindy:v5:source-set";

/// The call of another application that a record may repeat.
#[derive(Debug)]
pub struct UpstreamDedup {
    pub app_type: String,
    pub session_id: String,
}

/// One model call of a desktop agent. A cost in dollars is kept as the bits
/// of its IEEE 754 double.
#[derive(Debug)]
pub struct DesktopUsageRecord {
    pub request_id: String,
    pub app_type: String,
    pub data_source: String,
    pub provider_id: String,
    pub model: String,
    pub session_id: Option<String>,
    pub input_tokens: u32,
    pub output_tokens: u32,
    pub cache_read_tokens: u32,
    pub cache_creation_tokens: u32,
    pub total_cost_usd: Option<u64>,
    pub latency_ms: i64,
    pub duration_ms: Option<i64>,
    pub first_token_ms: Option<i64>,
    pub status_code: i64,
    pub error_message: Option<String>,
    pub created_at: i64,
    pub upstream_dedup: Option<UpstreamDedup>,
}

/// What a record says.
pub struct UsageRecord {
    pub request_id: Seq<char>,
    pub app_type: Seq<char>,
    pub data_source: Seq<char>,
    pub provider_id: Seq<char>,
    pub model: Seq<char>,
    pub session_id: Option<Seq<char>>,
    pub input_tokens: u32,
    pub output_tokens: u32,
    pub cache_read_tokens: u32,
    pub cache_creation_tokens: u32,
    pub total_cost_usd: Option<u64>,
    pub latency_ms: i64,
    pub duration_ms: Option<i64>,
    pub first_token_ms: Option<i64>,
    pub status_code: i64,
    pub error_message: Option<Seq<char>>,
    pub created_at: i64,
    /// The application and the session of the call that this one may repeat.
    pub upstream: Option<(Seq<char>, Seq<char>)>,
}

/// What became of a record that was to be written.
#[derive(Clone, Copy, Debug, PartialEq, Eq, Structural)]
pub enum DesktopUsageInsertOutcome {
    /// It was written.
    Inserted,
    /// The application's own rows have the call already.
    AccountedInSameApp,
    /// The rows of another application have the call already, at that cost. A
    /// mirror row may have been written for it.
    AccountedInUpstreamApp { total_cost_usd: u64, mirror_inserted: bool },
}

/// The application and the session that a record may repeat.
pub open spec fn upstream_of(upstream: Option<UpstreamDedup>) -> Option<(Seq<char>, Seq<char>)> {
    match upstream {
        Some(u) => Some((u.app_type@, u.session_id@)),
        None => None,
    }
}

impl View for DesktopUsageRecord {
    type V = UsageRecord;

    open spec fn view(&self) -> UsageRecord {
        UsageRecord {
            request_id: self.request_id@,
            app_type: self.app_type@,
            data_source: self.data_source@,
            provider_id: self.provider_id@,
            model: self.model@,
            session_id: text::opt_text(self.session_id),
            input_tokens: self.input_tokens,
            output_tokens: self.output_tokens,
            cache_read_tokens: self.cache_read_tokens,
            cache_creation_tokens: self.cache_creation_tokens,
            total_cost_usd: self.total_cost_usd,
            latency_ms: self.latency_ms,
            duration_ms: self.duration_ms,
            first_token_ms: self.first_token_ms,
            status_code: self.status_code,
            error_message: text::opt_text(self.error_message),
            created_at: self.created_at,
            upstream: upstream_of(self.upstream_dedup),
        }
    }
}

/// The view of an optional record.
pub open spec fn opt_record(r: Option<DesktopUsageRecord>) -> Option<UsageRecord> {
    match r {
        Some(record) => Some(record@),
        None => None,
    }
}

/// A token count as the database holds it: absent is none, and too many is
/// the most that fits.
pub open spec fn token_count(value: Option<u64>) -> u32 {
    match value {
        Some(n) => if n > u32::MAX {
            u32::MAX
        } else {
            n as u32
        },
        None => 0,
    }
}

pub fn token_u32(value: Option<u64>) -> (r: u32)
    ensures
        r == token_count(value),
{
    match value {
        Some(n) => if n > u32::MAX as u64 {
            u32::MAX
        } else {
            n as u32
        },
        None => 0,
    }
}

/// A duration as the database holds it: absent is zero, and too long is the
/// longest that fits.
pub open spec fn duration_count(value: Option<u64>) -> i64 {
    match value {
        Some(n) => if n > i64::MAX {
            i64::MAX
        } else {
            n as i64
        },
        None => 0,
    }
}

pub fn duration_i64(value: Option<u64>) -> (r: i64)
    ensures
        r == duration_count(value),
{
    match value {
        Some(n) => if n > i64::MAX as u64 {
            i64::MAX
        } else {
            n as i64
        },
        None => 0,
    }
}

/// The bits of a double that is finite and not below zero. Negative zero is
/// not below zero.
pub open spec fn cost_bits(bits: u64) -> bool {
    bits < 0x7ff0_0000_0000_0000 || bits == 0x8000_0000_0000_0000
}

/// The bits of a double that equals zero.
pub open spec fn zero_bits(bits: u64) -> bool {
    bits == 0 || bits == 0x8000_0000_0000_0000
}

pub fn is_cost(bits: u64) -> (r: bool)
    ensures
        r == cost_bits(bits),
{
    bits < 0x7ff0_0000_0000_0000 || bits == 0x8000_0000_0000_0000
}

pub fn is_zero_cost(bits: u64) -> (r: bool)
    ensures
        r == zero_bits(bits),
{
    bits == 0 || bits == 0x8000_0000_0000_0000
}

/// A cost that is finite and not negative; any other is as good as none.
pub open spec fn usable_cost(value: Option<u64>) -> Option<u64> {
    match value {
        Some(bits) => if cost_bits(bits) {
            Some(bits)
        } else {
            None
        },
        None => None,
    }
}

pub fn finite_non_negative(value: Option<u64>) -> (r: Option<u64>)
    ensures
        r == usable_cost(value),
{
    match value {
        Some(bits) => if is_cost(bits) {
            Some(bits)
        } else {
            None
        },
        None => None,
    }
}

/// The first of two optional counts that is there.
pub open spec fn either_count(a: Option<u64>, b: Option<u64>) -> Option<u64> {
    match a {
        Some(n) => Some(n),
        None => b,
    }
}

/// The first of two optional counts that is there.
pub fn first_count(a: Option<u64>, b: Option<u64>) -> (r: Option<u64>)
    ensures
        r == either_count(a, b),
{
    match a {
        Some(n) => Some(n),
        None => b,
    }
}

/// A name, or "unknown" where it is blank.
pub open spec fn known_name(name: Seq<char>) -> Seq<char> {
    if text::blank(name) {
        "unknown"@
    } else {
        name
    }
}

/// A name, or "unknown" where it is blank.
pub fn name_or_unknown(name: &str) -> (r: String)
    ensures
        r@ == known_name(name@),
{
    if text::is_blank(name) {
        "unknown".to_owned()
    } else {
        name.to_owned()
    }
}

/// A model call as Maka writes it down.
#[derive(Debug)]
pub struct MakaAttempt {
    pub session_id: Option<String>,
    pub model_id: String,
    pub status: String,
    pub usage_basis: String,
    pub input_tokens: Option<u64>,
    pub output_tokens: Option<u64>,
    pub cache_read_input_tokens: Option<u64>,
    pub cache_miss_input_tokens: Option<u64>,
    pub cache_write_input_tokens: Option<u64>,
    pub cost_basis: String,
    pub cost_usd: Option<u64>,
    pub latency_ms: Option<u64>,
    pub time_to_first_token_ms: Option<u64>,
}

/// The HTTP status that stands for how a Maka call ended.
pub open spec fn maka_status(status: Seq<char>) -> i64 {
    if status == "completed"@ {
        200
    } else if status == "interrupted"@ || status == "aborted"@ {
        499
    } else {
        500
    }
}

/// The request id of a Maka call.
pub open spec fn maka_request_id(attempt_id: Seq<char>) -> Seq<char> {
    "maka_attempt:"@ + attempt_id
}

/// The record of a Maka call. A call of unknown usage and one without tokens
/// leave none.
pub open spec fn maka_record(
    attempt_id: Seq<char>,
    completed_at_ms: i64,
    attempt: MakaAttempt,
) -> Option<UsageRecord> {
    let input_tokens = token_count(
        either_count(attempt.cache_miss_input_tokens, attempt.input_tokens),
    );
    let output_tokens = token_count(attempt.output_tokens);
    let cache_read_tokens = token_count(attempt.cache_read_input_tokens);
    let cache_creation_tokens = token_count(attempt.cache_write_input_tokens);
    if attempt.usage_basis@ == "missing"@ || (input_tokens == 0 && output_tokens == 0
        && cache_read_tokens == 0 && cache_creation_tokens == 0) {
        None
    } else {
        Some(
            UsageRecord {
                request_id: maka_request_id(attempt_id),
                app_type: MAKA_APP_TYPE@,
                data_source: MAKA_DATA_SOURCE@,
                provider_id: "_maka_session"@,
                model: known_name(attempt.model_id@),
                session_id: text::opt_text(attempt.session_id),
                input_tokens,
                output_tokens,
                cache_read_tokens,
                cache_creation_tokens,
                total_cost_usd: if attempt.cost_basis@ == "priced"@ {
                    usable_cost(attempt.cost_usd)
                } else {
                    None
                },
                latency_ms: duration_count(attempt.latency_ms),
                duration_ms: None,
                first_token_ms: match attempt.time_to_first_token_ms {
                    Some(ms) => Some(duration_count(Some(ms))),
                    None => None,
                },
                status_code: maka_status(attempt.status@),
                error_message: if attempt.status@ == "completed"@ {
                    None
                } else {
                    Some(attempt.status@)
                },
                created_at: numbers::thousandth(completed_at_ms),
                upstream: None,
            },
        )
    }
}

/// The record of a call that Maka wrote down.
pub fn parse_maka_attempt(attempt_id: &str, completed_at_ms: i64, attempt: MakaAttempt) -> (r: Option<
    DesktopUsageRecord,
>)
    ensures
        opt_record(r) == maka_record(attempt_id@, completed_at_ms, attempt),
{
    if text::same_text(attempt.usage_basis.as_str(), "missing") {
        return None;
    }
    let input_tokens: u32 = token_u32(
        first_count(attempt.cache_miss_input_tokens, attempt.input_tokens),
    );
    let output_tokens: u32 = token_u32(attempt.output_tokens);
    let cache_read_tokens: u32 = token_u32(attempt.cache_read_input_tokens);
    let cache_creation_tokens: u32 = token_u32(attempt.cache_write_input_tokens);
    if input_tokens == 0 && output_tokens == 0 && cache_read_tokens == 0 && cache_creation_tokens
        == 0 {
        return None;
    }
    let completed = text::same_text(attempt.status.as_str(), "completed");
    let stopped = text::same_text(attempt.status.as_str(), "interrupted") || text::same_text(
        attempt.status.as_str(),
        "aborted",
    );
    let status_code: i64 = if completed {
        200
    } else if stopped {
        499
    } else {
        500
    };
    Some(
        DesktopUsageRecord {
            request_id: text::joined("maka_attempt:", attempt_id),
            app_type: MAKA_APP_TYPE.to_owned(),
            data_source: MAKA_DATA_SOURCE.to_owned(),
            provider_id: "_maka_session".to_owned(),
            model: name_or_unknown(attempt.model_id.as_str()),
            session_id: attempt.session_id,
            input_tokens,
            output_tokens,
            cache_read_tokens,
            cache_creation_tokens,
            total_cost_usd: if text::same_text(attempt.cost_basis.as_str(), "priced") {
                finite_non_negative(attempt.cost_usd)
            } else {
                None
            },
            latency_ms: duration_i64(attempt.latency_ms),
            duration_ms: None,
            first_token_ms: match attempt.time_to_first_token_ms {
                Some(ms) => Some(duration_i64(Some(ms))),
                None => None,
            },
            status_code,
            error_message: if completed {
                None
            } else {
                Some(attempt.status)
            },
            created_at: numbers::whole_seconds(completed_at_ms),
            upstream_dedup: None,
        },
    )
}

/// The token usage that CodePilot keeps with a message.
#[derive(Debug)]
pub struct CodePilotTokenUsage {
    pub input_tokens: Option<u64>,
    pub output_tokens: Option<u64>,
    pub cache_read_input_tokens: Option<u64>,
    pub cache_creation_input_tokens: Option<u64>,
    pub cost_usd: Option<u64>,
    pub usage_model_id: Option<String>,
    pub context_accounting: Option<CodePilotContextAccounting>,
}

/// Who answered for CodePilot.
#[derive(Debug)]
pub struct CodePilotContextAccounting {
    pub provider_backend: Option<String>,
}

/// The seconds since the epoch that a CodePilot time stands for: an RFC 3339
/// time, or a UTC date and time without a zone.
pub open spec fn codepilot_seconds(value: Seq<char>) -> Option<i64> {
    match clock::rfc3339_moment(value) {
        Some(moment) => Some(moment.0),
        None => clock::civil_seconds(value, "%Y-%m-%d %H:%M:%S"@),
    }
}

/// The seconds since the epoch that a CodePilot time stands for.
pub fn parse_codepilot_timestamp(value: &str) -> (r: Option<i64>)
    ensures
        r == codepilot_seconds(value@),
{
    match clock::parse_rfc3339(value) {
        Some(moment) => Some(moment.0),
        None => clock::parse_civil(value, "%Y-%m-%d %H:%M:%S"),
    }
}

/// Whether CodePilot counted no token at all.
pub open spec fn codepilot_empty(usage: CodePilotTokenUsage) -> bool {
    &&& token_count(usage.input_tokens) == 0
    &&& token_count(usage.output_tokens) == 0
    &&& token_count(usage.cache_read_input_tokens) == 0
    &&& token_count(usage.cache_creation_input_tokens) == 0
}

/// The model of a CodePilot message: the one that the usage names, else that
/// of the session.
pub open spec fn codepilot_model(usage: CodePilotTokenUsage, session_model: Seq<char>) -> Seq<
    char,
> {
    match text::opt_text(usage.usage_model_id) {
        Some(model) => if text::blank(model) {
            known_name(session_model)
        } else {
            model
        },
        None => known_name(session_model),
    }
}

/// Whether a Codex account answered.
pub open spec fn codepilot_on_codex(usage: CodePilotTokenUsage) -> bool {
    match usage.context_accounting {
        Some(context) => text::opt_text(context.provider_backend) == Some("codex_account"@),
        None => false,
    }
}

/// The request id of a CodePilot message.
pub open spec fn codepilot_request_id(message_id: Seq<char>) -> Seq<char> {
    "codepilot_message:"@ + message_id
}

/// The outcome for a CodePilot message whose time was read as `timestamp`:
/// nothing without tokens, a failure without a time, and otherwise a record.
pub open spec fn codepilot_record(
    message_id: Seq<char>,
    session_id: Seq<char>,
    created_at: Seq<char>,
    usage: CodePilotTokenUsage,
    session_model: Seq<char>,
    codex_thread_id: Seq<char>,
    timestamp: Option<i64>,
) -> Result<Option<UsageRecord>, Fault> {
    if codepilot_empty(usage) {
        Ok(None)
    } else {
        match timestamp {
            None => Err(Fault::Config("CodePilot 消息时间格式无效: "@ + created_at)),
            Some(seconds) => Ok(
                Some(
                    UsageRecord {
                        request_id: codepilot_request_id(message_id),
                        app_type: CODEPILOT_APP_TYPE@,
                        data_source: CODEPILOT_DATA_SOURCE@,
                        provider_id: "_codepilot_session"@,
                        model: codepilot_model(usage, session_model),
                        session_id: Some(session_id),
                        input_tokens: token_count(usage.input_tokens),
                        output_tokens: token_count(usage.output_tokens),
                        cache_read_tokens: token_count(usage.cache_read_input_tokens),
                        cache_creation_tokens: token_count(usage.cache_creation_input_tokens),
                        total_cost_usd: usable_cost(usage.cost_usd),
                        latency_ms: 0,
                        duration_ms: None,
                        first_token_ms: None,
                        status_code: 200,
                        error_message: None,
                        created_at: seconds,
                        upstream: if codepilot_on_codex(usage) && !text::blank(codex_thread_id) {
                            Some(("codex"@, codex_thread_id))
                        } else {
                            None
                        },
                    },
                ),
            ),
        }
    }
}

/// The view of what came of a message.
pub open spec fn record_result(r: Result<Option<DesktopUsageRecord>, AppError>) -> Result<
    Option<UsageRecord>,
    Fault,
> {
    match r {
        Ok(record) => Ok(opt_record(record)),
        Err(error) => Err(error@),
    }
}

/// Whether CodePilot counted no token at all.
fn codepilot_without_tokens(usage: &CodePilotTokenUsage) -> (r: bool)
    ensures
        r == codepilot_empty(*usage),
{
    token_u32(usage.input_tokens) == 0 && token_u32(usage.output_tokens) == 0 && token_u32(
        usage.cache_read_input_tokens,
    ) == 0 && token_u32(usage.cache_creation_input_tokens) == 0
}

/// The record of a CodePilot message whose time was read as `timestamp`.
pub fn codepilot_message_at(
    message_id: &str,
    session_id: &str,
    created_at: &str,
    usage: CodePilotTokenUsage,
    session_model: &str,
    codex_thread_id: &str,
    timestamp: Option<i64>,
) -> (r: Result<Option<DesktopUsageRecord>, AppError>)
    ensures
        record_result(r) == codepilot_record(
            message_id@,
            session_id@,
            created_at@,
            usage,
            session_model@,
            codex_thread_id@,
            timestamp,
        ),
{
    if codepilot_without_tokens(&usage) {
        return Ok(None);
    }
    let seconds: i64 = match timestamp {
        Some(seconds) => seconds,
        None => return Err(AppError::Config(text::joined("CodePilot 消息时间格式无效: ", created_at))),
    };
    let on_codex = match &usage.context_accounting {
        Some(context) => match &context.provider_backend {
            Some(backend) => text::same_text(backend.as_str(), "codex_account"),
            None => false,
        },
        None => false,
    };
    let upstream_dedup = if on_codex && !text::is_blank(codex_thread_id) {
        Some(
            UpstreamDedup {
                app_type: "codex".to_owned(),
                session_id: codex_thread_id.to_owned(),
            },
        )
    } else {
        None
    };
    let input_tokens: u32 = token_u32(usage.input_tokens);
    let output_tokens: u32 = token_u32(usage.output_tokens);
    let cache_read_tokens: u32 = token_u32(usage.cache_read_input_tokens);
    let cache_creation_tokens: u32 = token_u32(usage.cache_creation_input_tokens);
    let total_cost_usd: Option<u64> = finite_non_negative(usage.cost_usd);
    let model = match usage.usage_model_id {
        Some(model) => if text::is_blank(model.as_str()) {
            name_or_unknown(session_model)
        } else {
            model
        },
        None => name_or_unknown(session_model),
    };
    Ok(
        Some(
            DesktopUsageRecord {
                request_id: text::joined("codepilot_message:", message_id),
                app_type: CODEPILOT_APP_TYPE.to_owned(),
                data_source: CODEPILOT_DATA_SOURCE.to_owned(),
                provider_id: "_codepilot_session".to_owned(),
                model,
                session_id: Some(session_id.to_owned()),
                input_tokens,
                output_tokens,
                cache_read_tokens,
                cache_creation_tokens,
                total_cost_usd,
                latency_ms: 0,
                duration_ms: None,
                first_token_ms: None,
                status_code: 200,
                error_message: None,
                created_at: seconds,
                upstream_dedup,
            },
        ),
    )
}

/// The record of a CodePilot message.
pub fn parse_codepilot_message(
    message_id: &str,
    session_id: &str,
    created_at: &str,
    usage: CodePilotTokenUsage,
    session_model: &str,
    codex_thread_id: &str,
) -> (r: Result<Option<DesktopUsageRecord>, AppError>)
    ensures
        record_result(r) == codepilot_record(
            message_id@,
            session_id@,
            created_at@,
            usage,
            session_model@,
            codex_thread_id@,
            codepilot_seconds(created_at@),
        ),
{
    let timestamp = parse_codepilot_timestamp(created_at);
    codepilot_message_at(
        message_id,
        session_id,
        created_at,
        usage,
        session_model,
        codex_thread_id,
        timestamp,
    )
}

/// No two calls of Maka go by one request id, and no two messages of
/// CodePilot do, so what is read again is known again.
pub proof fn law_request_ids_tell_calls_apart(a: Seq<char>, b: Seq<char>)
    ensures
        (maka_request_id(a) == maka_request_id(b)) == (a == b),
        (codepilot_request_id(a) == codepilot_request_id(b)) == (a == b),
{
    lemma_same_rest("maka_attempt:"@, a, b);
    lemma_same_rest("codepilot_message:"@, a, b);
}

proof fn lemma_same_rest(head: Seq<char>, a: Seq<char>, b: Seq<char>)
    ensures
        (head + a == head + b) == (a == b),
{
    if head + a == head + b {
        assert((head + a).skip(head.len() as int) =~= a);
        assert((head + b).skip(head.len() as int) =~= b);
    }
}

/// A count of tokens as the database holds it.
pub open spec fn held_count(held: u32, value: Option<u64>) -> bool {
    match value {
        Some(n) => held == if n <= 0xffff_ffff {
            n
        } else {
            0xffff_ffff
        },
        None => held == 0,
    }
}

/// The record of a Maka call is of that call: the tokens that were not cached
/// count as input, or else all input; each other count is its own. A call that
/// did not complete says how it ended, and only a priced call has a cost, which
/// is a finite amount from zero up.
pub proof fn law_maka_record_is_of_the_call(
    attempt_id: Seq<char>,
    completed_at_ms: i64,
    attempt: MakaAttempt,
)
    ensures
        maka_record(attempt_id, completed_at_ms, attempt) matches Some(record) ==> {
            &&& record.request_id == "maka_attempt:"@ + attempt_id
            &&& record.app_type == "maka"@
            &&& record.data_source == "maka_session"@
            &&& record.provider_id == "_maka_session"@
            &&& held_count(
                record.input_tokens,
                if attempt.cache_miss_input_tokens is Some {
                    attempt.cache_miss_input_tokens
                } else {
                    attempt.input_tokens
                },
            )
            &&& held_count(record.output_tokens, attempt.output_tokens)
            &&& held_count(record.cache_read_tokens, attempt.cache_read_input_tokens)
            &&& held_count(record.cache_creation_tokens, attempt.cache_write_input_tokens)
            &&& record.session_id == (match attempt.session_id {
                Some(id) => Some(id@),
                None => None,
            })
            &&& text::blank(attempt.model_id@) ==> record.model == "unknown"@
            &&& !text::blank(attempt.model_id@) ==> record.model == attempt.model_id@
            &&& attempt.status@ == "completed"@ ==> record.status_code == 200
                && record.error_message is None
            &&& attempt.status@ == "interrupted"@ || attempt.status@ == "aborted"@
                ==> record.status_code == 499
            &&& attempt.status@ != "completed"@ && attempt.status@ != "interrupted"@
                && attempt.status@ != "aborted"@ ==> record.status_code == 500
            &&& attempt.status@ != "completed"@ ==> record.error_message == Some(attempt.status@)
            &&& attempt.cost_basis@ != "priced"@ ==> record.total_cost_usd is None
            &&& attempt.cost_basis@ == "priced"@ && (attempt.cost_usd matches Some(bits) && (bits
                < 0x7ff0_0000_0000_0000 || bits == 0x8000_0000_0000_0000))
                ==> record.total_cost_usd == attempt.cost_usd
            &&& record.total_cost_usd matches Some(bits) ==> bits < 0x7ff0_0000_0000_0000 || bits
                == 0x8000_0000_0000_0000
            &&& attempt.latency_ms matches Some(ms) ==> record.latency_ms == if ms <= i64::MAX {
                ms as int
            } else {
                i64::MAX as int
            }
            &&& attempt.latency_ms is None ==> record.latency_ms == 0
            &&& attempt.time_to_first_token_ms matches Some(ms) ==> record.first_token_ms == Some(
                if ms <= i64::MAX {
                    ms as i64
                } else {
                    i64::MAX
                },
            )
            &&& attempt.time_to_first_token_ms is None ==> record.first_token_ms is None
            &&& record.duration_ms is None
            &&& completed_at_ms >= 0 ==> record.created_at * 1000 <= completed_at_ms
                < record.created_at * 1000 + 1000
            &&& record.upstream is None
        },
{
    reveal_strlit("completed");
    reveal_strlit("interrupted");
    reveal_strlit("aborted");
    assert("completed"@.len() == 9);
    assert("interrupted"@.len() == 11);
    assert("aborted"@.len() == 7);
    if completed_at_ms >= 0 {
        numbers::law_whole_seconds(completed_at_ms);
    }
}

/// A Maka call leaves a record where, and only where, its usage is known and
/// some of its counts are above zero.
pub proof fn law_maka_calls_with_tokens_are_recorded(
    attempt_id: Seq<char>,
    completed_at_ms: i64,
    attempt: MakaAttempt,
)
    ensures
        maka_record(attempt_id, completed_at_ms, attempt) is Some <==> {
            let input = if attempt.cache_miss_input_tokens is Some {
                attempt.cache_miss_input_tokens
            } else {
                attempt.input_tokens
            };
            &&& attempt.usage_basis@ != "missing"@
            &&& {
                ||| input matches Some(n) && n > 0
                ||| attempt.output_tokens matches Some(n) && n > 0
                ||| attempt.cache_read_input_tokens matches Some(n) && n > 0
                ||| attempt.cache_write_input_tokens matches Some(n) && n > 0
            }
        },
{
}

/// The record of a CodePilot message is of that message. Its model is the one
/// that the usage names, else that of the session, else unknown. Where a Codex
/// account answered, the record names Codex and its thread, so that a call that
/// Codex logged too is counted once.
pub proof fn law_codepilot_record_is_of_the_message(
    message_id: Seq<char>,
    session_id: Seq<char>,
    created_at: Seq<char>,
    usage: CodePilotTokenUsage,
    session_model: Seq<char>,
    codex_thread_id: Seq<char>,
    timestamp: Option<i64>,
)
    ensures
        ({
            let r = codepilot_record(
                message_id,
                session_id,
                created_at,
                usage,
                session_model,
                codex_thread_id,
                timestamp,
            );
            let some_tokens = {
                ||| usage.input_tokens matches Some(n) && n > 0
                ||| usage.output_tokens matches Some(n) && n > 0
                ||| usage.cache_read_input_tokens matches Some(n) && n > 0
                ||| usage.cache_creation_input_tokens matches Some(n) && n > 0
            };
            let answered_by_codex = usage.context_accounting matches Some(context)
                && context.provider_backend matches Some(backend) && backend@ == "codex_account"@;
            &&& !some_tokens ==> r == Ok::<Option<UsageRecord>, Fault>(None)
            &&& some_tokens && timestamp is None ==> r == Err::<Option<UsageRecord>, Fault>(
                Fault::Config("CodePilot 消息时间格式无效: "@ + created_at),
            )
            &&& some_tokens && timestamp is Some ==> (r matches Ok(Some(record)) && {
                &&& record.request_id == "codepilot_message:"@ + message_id
                &&& record.app_type == "codepilot"@
                &&& record.data_source == "codepilot_session"@
                &&& record.provider_id == "_codepilot_session"@
                &&& record.session_id == Some(session_id)
                &&& record.created_at == timestamp->0
                &&& held_count(record.input_tokens, usage.input_tokens)
                &&& held_count(record.output_tokens, usage.output_tokens)
                &&& held_count(record.cache_read_tokens, usage.cache_read_input_tokens)
                &&& held_count(record.cache_creation_tokens, usage.cache_creation_input_tokens)
                &&& record.status_code == 200
                &&& record.error_message is None
                &&& (usage.usage_model_id matches Some(model) && !text::blank(model@))
                    ==> record.model == usage.usage_model_id->0@
                &&& !(usage.usage_model_id matches Some(model) && !text::blank(model@))
                    && !text::blank(session_model) ==> record.model == session_model
                &&& !(usage.usage_model_id matches Some(model) && !text::blank(model@))
                    && text::blank(session_model) ==> record.model == "unknown"@
                &&& (usage.cost_usd matches Some(bits) && (bits < 0x7ff0_0000_0000_0000 || bits
                    == 0x8000_0000_0000_0000)) ==> record.total_cost_usd == usage.cost_usd
                &&& !(usage.cost_usd matches Some(bits) && (bits < 0x7ff0_0000_0000_0000 || bits
                    == 0x8000_0000_0000_0000)) ==> record.total_cost_usd is None
                &&& answered_by_codex && !text::blank(codex_thread_id) ==> record.upstream == Some(
                    ("codex"@, codex_thread_id),
                )
                &&& !answered_by_codex || text::blank(codex_thread_id) ==> record.upstream is None
            })
        }),
{
}

/// A time of CodePilot's is read as an RFC 3339 time where it is one, and
/// otherwise as a date and a time without a zone.
pub proof fn law_codepilot_times(value: Seq<char>)
    ensures
        clock::rfc3339_moment(value) matches Some(moment) ==> codepilot_seconds(value) == Some(
            moment.0,
        ),
        clock::rfc3339_moment(value) is None ==> codepilot_seconds(value) == clock::civil_seconds(
            value,
            "%Y-%m-%d %H:%M:%S"@,
        ),
{
}

} // verus!
