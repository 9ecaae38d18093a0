use cc_switch::harness::{
    harness_sync_key, is_session_file, DeepSeekHarnessUsage, HarnessReader, HarnessStep,
};
use cc_switch::insert::{
    choose_row, has_upstream_duplicate, models_may_agree, next_insert_stage,
    upstream_duplicate_cost, upstream_window, InsertEvent, InsertStage, MirrorRow, UpstreamRow,
};
use cc_switch::json::{parse_json, Json, JsonNumber};
use cc_switch::spool::{proxy_event, spool_dir, spool_file, RequestLog, SpoolEvent};
use cc_switch::sync::{
    codepilot_db_path, codepilot_sync_key, deepseek_harness_sessions_dir, empty_result,
    maka_db_path, maka_sync_key, source_changed, source_modified_nanos, sync_codepilot_usage,
    sync_deepseek_harness_usage, sync_maka_usage, wal_path, FileOutcome, RowOutcome, SourceState,
};
use cc_switch::usage::{
    duration_i64, finite_non_negative, parse_codepilot_message, parse_codepilot_timestamp,
    parse_maka_attempt, token_u32, CodePilotContextAccounting, CodePilotTokenUsage,
    DesktopUsageInsertOutcome, DesktopUsageRecord, MakaAttempt, UpstreamDedup,
};

fn text(value: &Json, key: &str) -> Option<String> {
    value.get_text(key).map(|text| text.to_string())
}

/// The bits of a number as a double.
fn bits(value: &Json, key: &str) -> Option<u64> {
    value.get_number(key).map(|number| match number {
        JsonNumber::Unsigned(n) => (n as f64).to_bits(),
        JsonNumber::Negative(n) => (n as f64).to_bits(),
        JsonNumber::Real(bits) => bits,
    })
}

fn attempt(json: &str) -> MakaAttempt {
    let value = parse_json(json).unwrap();
    MakaAttempt {
        session_id: text(&value, "sessionId"),
        model_id: text(&value, "modelId").unwrap(),
        status: text(&value, "status").unwrap(),
        usage_basis: text(&value, "usageBasis").unwrap(),
        input_tokens: value.get_u64("inputTokens"),
        output_tokens: value.get_u64("outputTokens"),
        cache_read_input_tokens: value.get_u64("cacheReadInputTokens"),
        cache_miss_input_tokens: value.get_u64("cacheMissInputTokens"),
        cache_write_input_tokens: value.get_u64("cacheWriteInputTokens"),
        cost_basis: text(&value, "costBasis").unwrap(),
        cost_usd: bits(&value, "costUsd"),
        latency_ms: value.get_u64("latencyMs"),
        time_to_first_token_ms: value.get_u64("timeToFirstTokenMs"),
    }
}

fn token_usage(json: &str) -> CodePilotTokenUsage {
    let value = parse_json(json).unwrap();
    CodePilotTokenUsage {
        input_tokens: value.get_u64("input_tokens"),
        output_tokens: value.get_u64("output_tokens"),
        cache_read_input_tokens: value.get_u64("cache_read_input_tokens"),
        cache_creation_input_tokens: value.get_u64("cache_creation_input_tokens"),
        cost_usd: bits(&value, "cost_usd"),
        usage_model_id: text(&value, "usage_model_id"),
        context_accounting: value.get("context_accounting").map(|context| {
            CodePilotContextAccounting { provider_backend: text(context, "providerBackend") }
        }),
    }
}

fn record(app_type: &str, model: &str, upstream: Option<(&str, &str)>) -> DesktopUsageRecord {
    DesktopUsageRecord {
        request_id: "request".to_string(),
        app_type: app_type.to_string(),
        data_source: "source".to_string(),
        provider_id: "provider".to_string(),
        model: model.to_string(),
        session_id: Some("session".to_string()),
        input_tokens: 10,
        output_tokens: 2,
        cache_read_tokens: 3,
        cache_creation_tokens: 4,
        total_cost_usd: None,
        latency_ms: 0,
        duration_ms: None,
        first_token_ms: None,
        status_code: 200,
        error_message: None,
        created_at: 1_700_000_000,
        upstream_dedup: upstream.map(|(app_type, session_id)| UpstreamDedup {
            app_type: app_type.to_string(),
            session_id: session_id.to_string(),
        }),
    }
}

fn upstream_row(record: &DesktopUsageRecord, app_type: &str, session_id: &str) -> UpstreamRow {
    UpstreamRow {
        app_type: app_type.to_string(),
        session_id: session_id.to_string(),
        created_at: record.created_at,
        input_tokens: record.input_tokens,
        output_tokens: record.output_tokens,
        cache_read_tokens: record.cache_read_tokens,
        cache_creation_tokens: record.cache_creation_tokens,
        model: record.model.clone(),
        total_cost_usd: Some(0),
    }
}

/// What comes of a record where the database holds those rows.
fn insert(record: &DesktopUsageRecord, rows: &Vec<UpstreamRow>) -> DesktopUsageInsertOutcome {
    let mut stage = InsertStage::FindUpstream;
    loop {
        let event = match stage {
            InsertStage::FindUpstream => {
                InsertEvent::Upstream(upstream_duplicate_cost(record, rows))
            }
            InsertStage::CheckRecorded => InsertEvent::Recorded(false),
            InsertStage::WriteMirror { .. } | InsertStage::WriteRow => InsertEvent::Written(true),
            InsertStage::Done(outcome) => return outcome,
        };
        stage = next_insert_stage(record, stage, event);
    }
}

#[test]
fn maka_uses_cache_miss_as_fresh_input() {
    let record = parse_maka_attempt(
        "attempt-1",
        1_700_000_000_000,
        attempt(
            r#"{
                "sessionId":"session-1","modelId":"gpt-test","status":"completed",
                "usageBasis":"reported","inputTokens":1000,"outputTokens":50,
                "cacheReadInputTokens":700,"cacheMissInputTokens":200,
                "cacheWriteInputTokens":100,"costBasis":"priced","costUsd":0.25,
                "latencyMs":1200,"timeToFirstTokenMs":150
            }"#,
        ),
    )
    .unwrap();
    assert_eq!(record.input_tokens, 200);
    assert_eq!(record.cache_read_tokens, 700);
    assert_eq!(record.cache_creation_tokens, 100);
    assert_eq!(record.total_cost_usd, Some(0.25f64.to_bits()));
    assert_eq!(record.created_at, 1_700_000_000);
    assert_eq!(record.latency_ms, 1200);
    assert_eq!(record.first_token_ms, Some(150));
    assert_eq!(record.status_code, 200);
    assert_eq!(record.error_message, None);
}

#[test]
fn maka_statuses_and_gaps() {
    let line = |status: &str, basis: &str, tokens: u64| {
        format!(
            "{{\"modelId\":\" \",\"status\":\"{status}\",\"usageBasis\":\"{basis}\",\
             \"inputTokens\":{tokens},\"costBasis\":\"unpriced\",\"costUsd\":1}}"
        )
    };
    let parse = |json: String| parse_maka_attempt("a", -1500, attempt(&json));
    let aborted = parse(line("aborted", "reported", 7)).unwrap();
    assert_eq!(aborted.request_id, "maka_attempt:a");
    assert_eq!(aborted.model, "unknown");
    assert_eq!(aborted.status_code, 499);
    assert_eq!(aborted.error_message.as_deref(), Some("aborted"));
    assert_eq!(aborted.total_cost_usd, None);
    assert_eq!(aborted.created_at, -1);
    assert_eq!(parse(line("interrupted", "reported", 7)).unwrap().status_code, 499);
    assert_eq!(parse(line("odd", "reported", 7)).unwrap().status_code, 500);
    assert!(parse(line("completed", "missing", 7)).is_none());
    assert!(parse(line("completed", "reported", 0)).is_none());
}

#[test]
fn codepilot_prefers_usage_model_and_falls_back_to_session_model() {
    let explicit = parse_codepilot_message(
        "message-1",
        "session-1",
        "2026-08-03 05:34:41",
        token_usage(r#"{"input_tokens":10,"output_tokens":2,"usage_model_id":"model-a"}"#),
        "session-model",
        "",
    )
    .unwrap()
    .unwrap();
    assert_eq!(explicit.model, "model-a");

    let fallback = parse_codepilot_message(
        "message-2",
        "session-1",
        "2026-08-03T05:34:41Z",
        token_usage(r#"{"input_tokens":10,"output_tokens":2}"#),
        "session-model",
        "",
    )
    .unwrap()
    .unwrap();
    assert_eq!(fallback.model, "session-model");
}

#[test]
fn codepilot_sync_imports_completed_assistant_usage() {
    let record = parse_codepilot_message(
        "message-1",
        "session-1",
        "2026-08-03 05:34:41",
        token_usage(
            r#"{"input_tokens":11,"output_tokens":3,"cache_read_input_tokens":7,"cache_creation_input_tokens":2,"cost_usd":0.125}"#,
        ),
        "model-fallback",
        "",
    )
    .unwrap()
    .unwrap();
    assert_eq!(record.request_id, "codepilot_message:message-1");
    assert_eq!(record.app_type, "codepilot");
    assert_eq!(record.model, "model-fallback");
    assert_eq!(record.output_tokens, 3);
    assert_eq!(f64::from_bits(record.total_cost_usd.unwrap()).to_string(), "0.125");
    assert_eq!(insert(&record, &vec![]), DesktopUsageInsertOutcome::Inserted);

    let source = Some(SourceState { modified: 5, synced: 0 });
    let rows = vec![RowOutcome { id: "message-1".to_string(), outcome: Ok(true) }];
    let run = sync_codepilot_usage(source, false, &rows);
    assert_eq!(run.result.imported, 1);
    assert_eq!(run.mark, Some(5));
}

#[test]
fn codepilot_message_without_tokens_or_time() {
    let parse = |usage: &str, time: &str| {
        parse_codepilot_message("m", "s", time, token_usage(usage), " ", "thread")
    };
    assert!(parse("{}", "no time").unwrap().is_none());
    let error = parse("{\"input_tokens\":1}", "no time").unwrap_err();
    assert_eq!(error.text(), "CodePilot 消息时间格式无效: no time");
    let codex = "{\"input_tokens\":1,\"context_accounting\":{\"providerBackend\":\"codex_account\"}}";
    let record = parse(codex, "1970-01-01 00:01:00").unwrap().unwrap();
    assert_eq!(record.model, "unknown");
    assert_eq!(record.created_at, 60);
    let upstream = record.upstream_dedup.unwrap();
    assert_eq!((upstream.app_type.as_str(), upstream.session_id.as_str()), ("codex", "thread"));
    let other = "{\"input_tokens\":1,\"context_accounting\":{\"providerBackend\":\"api\"}}";
    assert!(parse(other, "1970-01-01 00:01:00").unwrap().unwrap().upstream_dedup.is_none());
    assert_eq!(parse_codepilot_timestamp("2026-08-03T07:34:41+02:00"), Some(1_785_735_281));
    assert_eq!(parse_codepilot_timestamp("2026-08-03 05:34:41"), Some(1_785_735_281));
    assert_eq!(parse_codepilot_timestamp("2026-13-03 05:34:41"), None);
}

#[test]
fn codepilot_reconciles_a_later_codex_import_when_source_is_unchanged() {
    let record = parse_codepilot_message(
        "message-1",
        "session-1",
        "2026-08-03 05:34:41",
        token_usage(
            r#"{"input_tokens":100,"output_tokens":20,"context_accounting":{"providerBackend":"codex_account"}}"#,
        ),
        "gpt-test",
        "thread-1",
    )
    .unwrap()
    .unwrap();
    assert_eq!(insert(&record, &vec![]), DesktopUsageInsertOutcome::Inserted);
    let late = vec![upstream_row(&record, "codex", "thread-1")];
    assert!(has_upstream_duplicate(&record, &late));
    assert_ne!(insert(&record, &late), DesktopUsageInsertOutcome::Inserted);

    let unchanged = Some(SourceState { modified: 5, synced: 5 });
    let run = sync_codepilot_usage(unchanged, true, &vec![]);
    assert!(run.result.data_changed);
    assert_eq!(run.result.imported, 0);
    assert_eq!(run.mark, None);
}

#[test]
fn codepilot_codex_backend_skips_matching_codex_rollout_usage() {
    let mut codepilot = record("codepilot", "gpt-test", Some(("codex", "thread-1")));
    codepilot.input_tokens = 100;
    codepilot.output_tokens = 20;
    codepilot.cache_read_tokens = 0;
    codepilot.cache_creation_tokens = 0;
    let mut codex = upstream_row(&codepilot, "codex", "thread-1");
    codex.created_at = 1_700_000_000;
    codepilot.created_at = 1_700_000_030;
    let outcome = insert(&codepilot, &vec![codex]);
    assert_ne!(outcome, DesktopUsageInsertOutcome::Inserted);
    assert_eq!(
        outcome,
        DesktopUsageInsertOutcome::AccountedInUpstreamApp {
            total_cost_usd: 0,
            mirror_inserted: false,
        }
    );
}

#[test]
fn cindy_upstream_dedup_requires_model_and_all_token_buckets() {
    let mut record = record("cindy", "gpt-test", Some(("pi", "sdk-session")));
    let rows = vec![upstream_row(&record, "pi", "sdk-session")];
    record.input_tokens = 11;
    assert!(!has_upstream_duplicate(&record, &rows));
    record.input_tokens = 10;
    record.model = "different-model".to_string();
    assert!(!has_upstream_duplicate(&record, &rows));
    record.model = "gpt-test#billing=subscription".to_string();
    assert!(has_upstream_duplicate(&record, &rows));
}

#[test]
fn repeated_call_of_cindy_leaves_a_mirror() {
    let record = record("cindy", "gpt-test", Some(("pi", "sdk-session")));
    let mut rows = vec![upstream_row(&record, "pi", "sdk-session")];
    rows[0].total_cost_usd = Some(0.5f64.to_bits());
    let cost = 0.5f64.to_bits();
    assert_eq!(
        insert(&record, &rows),
        DesktopUsageInsertOutcome::AccountedInUpstreamApp {
            total_cost_usd: cost,
            mirror_inserted: true,
        }
    );
    rows[0].total_cost_usd = Some((-1f64).to_bits());
    assert_eq!(upstream_duplicate_cost(&record, &rows), Some(0));
    rows[0].total_cost_usd = None;
    assert_eq!(upstream_duplicate_cost(&record, &rows), Some(0));
    rows[0].created_at += 120;
    assert!(has_upstream_duplicate(&record, &rows));
    rows[0].created_at += 1;
    assert!(!has_upstream_duplicate(&record, &rows));
    assert_eq!(upstream_window(i64::MAX), (i64::MAX - 120, i64::MAX));
    assert!(models_may_agree("GPT-test", "gpt-TEST#billing=api"));
    assert!(models_may_agree("unknown", "other") && !models_may_agree("a", "b"));
}

#[test]
fn rows_are_marked_and_priced() {
    let mut own = record("cindy", "gpt-test", None);
    own.total_cost_usd = Some(0);
    let plain = choose_row(&own, None);
    assert_eq!(plain.request_model, "gpt-test");
    assert_eq!(plain.data_source, "source");
    assert_eq!(plain.pricing_model.as_deref(), Some("gpt-test"));
    assert_eq!(plain.fixed_cost, Some(0));
    let mirror = MirrorRow {
        request_model: "mark".to_string(),
        data_source: "mirror".to_string(),
        total_cost_usd: 7,
    };
    let choice = choose_row(&own, Some(&mirror));
    assert_eq!((choice.request_model.as_str(), choice.data_source.as_str()), ("mark", "mirror"));
    assert_eq!(choice.fixed_cost, Some(7));
    let other = choose_row(&record("maka", "gpt-test", None), None);
    assert_eq!(other.pricing_model, None);
    assert_eq!(other.fixed_cost, None);
    let stage = next_insert_stage(&own, InsertStage::CheckRecorded, InsertEvent::Recorded(true));
    assert_eq!(stage, InsertStage::Done(DesktopUsageInsertOutcome::AccountedInSameApp));
    let stage = next_insert_stage(&own, InsertStage::WriteRow, InsertEvent::Written(false));
    assert_eq!(stage, InsertStage::Done(DesktopUsageInsertOutcome::AccountedInSameApp));
}

#[test]
fn maka_sync_is_incremental_and_idempotent() {
    let record = parse_maka_attempt(
        "attempt-1",
        1_700_000_000_000,
        attempt(
            r#"{"modelId":"gpt-test","status":"completed","usageBasis":"reported","inputTokens":30,"outputTokens":5,"cacheReadInputTokens":20,"cacheMissInputTokens":10,"cacheWriteInputTokens":0,"costBasis":"unpriced"}"#,
        ),
    )
    .unwrap();
    assert_eq!(record.request_id, "maka_attempt:attempt-1");
    assert_eq!(
        (
            record.app_type.as_str(),
            record.input_tokens,
            record.cache_read_tokens,
            record.data_source.as_str(),
        ),
        ("maka", 10, 20, "maka_session")
    );

    let rows = vec![RowOutcome { id: "attempt-1".to_string(), outcome: Ok(true) }];
    let first = sync_maka_usage(Some(SourceState { modified: 8, synced: 0 }), &rows);
    assert_eq!(first.result.imported, 1);
    let synced = first.mark.unwrap();
    let second = sync_maka_usage(Some(SourceState { modified: 8, synced }), &rows);
    assert_eq!(second.result.imported, 0);
}

#[test]
fn failed_row_is_read_again() {
    let rows = vec![
        RowOutcome { id: "a".to_string(), outcome: Ok(true) },
        RowOutcome { id: "b".to_string(), outcome: Ok(false) },
        RowOutcome { id: "c".to_string(), outcome: Err("broken".to_string()) },
    ];
    let source = Some(SourceState { modified: 8, synced: 0 });
    let maka = sync_maka_usage(source, &rows);
    assert_eq!((maka.result.imported, maka.result.skipped, maka.mark), (1, 1, None));
    assert_eq!(maka.result.errors, vec!["Maka attempt c: broken"]);
    let codepilot = sync_codepilot_usage(source, false, &rows);
    assert_eq!(codepilot.result.errors, vec!["CodePilot message c: broken"]);
    assert_eq!(codepilot.mark, None);
    assert_eq!(sync_maka_usage(None, &rows).result.files_scanned, 0);
    assert_eq!(sync_codepilot_usage(None, true, &rows).result.files_scanned, 0);
    assert!(source_changed(source) && !source_changed(None));
}

fn harness_usage(line: &str) -> DeepSeekHarnessUsage {
    let event = parse_json(line).unwrap();
    let usage = event.get("data").unwrap().get("usage").unwrap();
    DeepSeekHarnessUsage {
        input_tokens: usage.get_u64("inputTokens"),
        output_tokens: usage.get_u64("outputTokens"),
        cache_read_tokens: usage.get_u64("cacheReadTokens"),
        cache_write_tokens: usage.get_u64("cacheWriteTokens"),
    }
}

/// Reads the lines of a session, and writes down what is not known yet.
fn read_session(path: &str, lines: &[&str], known: &mut Vec<DesktopUsageRecord>) -> HarnessReader {
    let mut reader = HarnessReader::new(path);
    for (index, line) in lines.iter().enumerate() {
        let number = index as u64 + 1;
        if let HarnessStep::Usage { seq, created_at } = reader.line(number, line).unwrap() {
            if let Some(record) = reader.usage(seq, created_at, &harness_usage(line)) {
                let new = !known.iter().any(|other| other.request_id == record.request_id);
                if new {
                    known.push(record);
                }
                reader.written(new);
            }
        }
    }
    reader
}

#[test]
fn deepseek_harness_sync_imports_final_assistant_usage_idempotently() {
    let path = "/dsh/session-1/session.jsonl.zstd";
    let lines = [
        r#"{"type":"session","id":"session-1","createdAt":1700000000000}"#,
        r#"{"type":"request/context","seq":1,"time":1700000000100,"data":{"provider":"deepseek-official","model":"deepseek-v4-flash"}}"#,
        r#"{"type":"assistant/message","seq":2,"time":1700000001000,"data":{"turn":1,"step":1,"usage":{"inputTokens":10,"outputTokens":3,"cacheReadTokens":7},"message":{"id":"message-1","role":"assistant","content":[],"source":"agent"}}}"#,
        "",
    ];
    let mut known = Vec::new();
    let first = read_session(path, &lines, &mut known);
    assert_eq!(first.result.imported, 1);
    assert!(first.is_clean());
    let second = read_session(path, &lines, &mut known);
    assert_eq!(second.result.imported, 0);
    assert_eq!(second.result.skipped, 1);

    assert_eq!(harness_sync_key(path), format!("desktop:deepseek-harness:{path}"));
    let record = &known[0];
    assert_eq!(record.request_id, "deepseek_harness_message:session-1:2");
    assert_eq!(record.app_type, "deepseek_harness");
    assert_eq!(record.provider_id, "_deepseek_harness_session");
    assert_eq!(record.model, "deepseek-v4-flash");
    assert_eq!(record.input_tokens, 10);
    assert_eq!(record.cache_read_tokens, 7);
    assert_eq!(record.data_source, "deepseek_harness_session");
    assert_eq!(record.created_at, 1_700_000_001);
}

#[test]
fn deepseek_harness_directory_sync_discovers_nested_zstd_sessions() {
    assert!(is_session_file("session.jsonl.zstd"));
    assert!(!is_session_file("session.jsonl") && !is_session_file("x.session.jsonl.zstd"));
    let path = "/dsh/sessions/workspace-a/session-a/session.jsonl.zstd";
    let lines = [
        r#"{"type":"session","id":"session-a","createdAt":1700000000000}"#,
        r#"{"type":"request/context","seq":1,"time":1700000000100,"data":{"provider":"deepseek-official","model":"deepseek-v4-pro"}}"#,
        r#"{"type":"assistant/message","seq":2,"time":1700000001000,"data":{"usage":{"inputTokens":20,"outputTokens":4},"message":{"id":"message-a","role":"assistant","content":[],"source":"agent"}}}"#,
    ];
    let result = read_session(path, &lines, &mut Vec::new()).result;
    assert_eq!(result.files_scanned, 1);
    assert_eq!(result.imported, 1);
}

#[test]
fn harness_lines_that_lack_something() {
    let mut reader = HarnessReader::new("/dsh/fallback/session.jsonl.zstd");
    assert_eq!(reader.session_id, "fallback");
    assert_eq!(reader.line(1, "{\"type\":\"session\",\"id\":\" \"}").unwrap(), HarnessStep::Nothing);
    assert_eq!(reader.session_id, "fallback");
    let answer = "{\"type\":\"assistant/message\",\"data\":{\"usage\":{}}}";
    let step = reader.line(3, answer).unwrap();
    assert_eq!(step, HarnessStep::Usage { seq: 3, created_at: 0 });
    assert!(reader.usage(3, 0, &harness_usage(answer)).is_none());
    assert_eq!(reader.result.skipped, 1);
    let tokens = harness_usage("{\"data\":{\"usage\":{\"inputTokens\":1}}}");
    assert!(reader.usage(3, 0, &tokens).is_none());
    assert_eq!(
        reader.result.errors,
        vec!["DeepSeek Harness session fallback seq 3: 缺少有效时间戳"]
    );
    assert!(!reader.is_clean());
    let error = reader.line(4, "{").unwrap_err();
    assert!(error.text().starts_with(
        "DeepSeek Harness 会话 /dsh/fallback/session.jsonl.zstd 第 4 行格式无效: EOF"
    ));
    assert_eq!(
        reader.usage_error(5, "bad").text(),
        "DeepSeek Harness 会话 /dsh/fallback/session.jsonl.zstd 第 5 行 usage 无效: bad"
    );
    assert_eq!(HarnessReader::new("/").session_id, "unknown");
}

#[test]
fn reports_of_session_files_are_merged() {
    let mut one = empty_result(1);
    one.imported = 2;
    let mut two = empty_result(1);
    two.imported = u32::MAX;
    two.skipped = 1;
    two.errors.push("e".to_string());
    two.data_changed = true;
    let report = sync_deepseek_harness_usage(vec![
        FileOutcome { path: "/a".to_string(), outcome: Ok(one) },
        FileOutcome { path: "/b".to_string(), outcome: Err("broken".to_string()) },
        FileOutcome { path: "/c".to_string(), outcome: Ok(two) },
    ]);
    assert_eq!(report.imported, u32::MAX);
    assert_eq!(report.skipped, 1);
    assert_eq!(report.files_scanned, 2);
    assert_eq!(report.errors, vec!["DeepSeek Harness /b: broken", "e"]);
    assert!(report.data_changed);
}

#[test]
fn sources_and_their_names() {
    assert_eq!(maka_db_path("/data"), "/data/Maka/workspaces/default/runtime.sqlite");
    assert_eq!(codepilot_db_path("/home/u"), "/home/u/.codepilot/codepilot.db");
    let dir = |environment, home| deepseek_harness_sessions_dir(environment, home);
    assert_eq!(dir(Some("/env"), Some("/home/u")).as_deref(), Some("/env/sessions"));
    assert_eq!(dir(None, Some("/home/u")).as_deref(), Some("/home/u/.dsh/sessions"));
    assert_eq!(dir(None, None), None);
    assert_eq!(maka_sync_key("/p"), "desktop:maka:/p");
    assert_eq!(codepilot_sync_key("/p"), "desktop:codepilot:/p");
    assert_eq!(wal_path("/p.db"), "/p.db-wal");
    assert_eq!(source_modified_nanos(5, Some(9)), 9);
    assert_eq!(source_modified_nanos(5, Some(1)), 5);
    assert_eq!(source_modified_nanos(5, None), 5);
}

#[test]
fn counts_and_costs_stay_in_range() {
    assert_eq!(token_u32(None), 0);
    assert_eq!(token_u32(Some(u64::MAX)), u32::MAX);
    assert_eq!(duration_i64(Some(u64::MAX)), i64::MAX);
    let cost = |value: f64| finite_non_negative(Some(value.to_bits())).map(f64::from_bits);
    assert_eq!(cost(0.25), Some(0.25));
    assert_eq!(cost(-0.0), Some(0.0));
    assert_eq!(cost(-0.1), None);
    assert_eq!(cost(f64::NAN), None);
    assert_eq!(cost(f64::INFINITY), None);
}

#[test]
fn contract_contains_metadata_only() {
    let event = SpoolEvent {
        schema_version: 1,
        event_id: "ccswitch:test".into(),
        occurred_at: 1,
        source_app: "cc-switch".to_string(),
        source_version: "test".to_string(),
        request_id: "req".to_string(),
        session_id: Some("session".to_string()),
        provider_id: "provider".to_string(),
        model: "model".to_string(),
        input_tokens: 1,
        output_tokens: 2,
        cache_read_tokens: 3,
        cache_write_tokens: 4,
        latency_ms: 5,
        status_code: 200,
        reported_cost_usd: None,
        data_source: "ccswitch_proxy".to_string(),
    };
    let json = format!("{:?}", event.to_json());
    assert!(!json.contains("prompt"));
    assert!(!json.contains("response"));
    assert!(!json.contains("api_key"));
    assert!(json.contains("input_tokens"));
}

#[test]
fn proxy_event_hands_on_the_request() {
    let log = RequestLog {
        request_id: "req".to_string(),
        session_id: None,
        provider_id: "provider".to_string(),
        model: "model".to_string(),
        input_tokens: 1,
        output_tokens: 2,
        cache_read_tokens: 3,
        cache_creation_tokens: 4,
        latency_ms: 5,
        status_code: 200,
        total_cost: Some("0.5".to_string()),
    };
    let json = proxy_event(&log, -7, "3.0").to_json();
    assert_eq!(json.get_text("event_id"), Some("ccswitch:req"));
    assert_eq!(json.get_i64("occurred_at"), Some(-7));
    assert_eq!(json.get_text("source_app"), Some("cc-switch"));
    assert_eq!(json.get_text("source_version"), Some("3.0"));
    assert!(matches!(json.get("session_id"), Some(Json::Null)));
    assert_eq!(json.get_u64("cache_write_tokens"), Some(4));
    assert_eq!(json.get_text("reported_cost_usd"), Some("0.5"));
    assert_eq!(json.get_text("data_source"), Some("ccswitch_proxy"));
    match json {
        Json::Object(members) => assert_eq!(members.len(), 17),
        _ => panic!("an event is an object"),
    }
    let dir = spool_dir("/home/u");
    assert_eq!(dir, "/home/u/.local-ai-stack/spool/cc-switch");
    assert_eq!(
        spool_file(&dir, "2026-08-03"),
        "/home/u/.local-ai-stack/spool/cc-switch/events-2026-08-03.jsonl"
    );
}
