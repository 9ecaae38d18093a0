use cc_switch::insights::{
    is_recent, mcp_server_name, parse_timestamp_ms, parse_token_snapshot, skill_names, texts_once,
    NamedCount, TokenSnapshot, TurnCollector,
};
use cc_switch::json::{parse_json, JsonNumber};
use cc_switch::summary::{merge_counts, sorted_counts, summarize_turns, summary_fits};

fn fixture(session: &str, turn: &str, request_count: usize) -> Vec<String> {
    let mut lines = vec![
        format!(r#"{{"timestamp":"2026-07-15T01:00:00Z","type":"session_meta","payload":{{"id":"{session}"}}}}"#),
        format!(r#"{{"timestamp":"2026-07-15T01:00:01Z","type":"event_msg","payload":{{"type":"task_started","turn_id":"{turn}"}}}}"#),
    ];
    for index in 0..request_count {
        lines.push(format!(
            r#"{{"timestamp":"2026-07-15T01:00:02Z","type":"event_msg","payload":{{"type":"token_count","info":{{"total_token_usage":{{"input_tokens":{},"cached_input_tokens":{},"output_tokens":{}}}}}}}}}"#,
            1000 + index * 100,
            800 + index * 80,
            100 + index * 20,
        ));
    }
    lines.push(r#"{"timestamp":"2026-07-15T01:00:03Z","type":"response_item","payload":{"type":"custom_tool_call","name":"mcp__playwright__browser_open","input":"{}"}}"#.to_string());
    lines.push(r#"{"timestamp":"2026-07-15T01:00:04Z","type":"response_item","payload":{"type":"custom_tool_call","name":"exec","input":"sed -n '1,20p' /tmp/skills/frontend-patterns/SKILL.md"}}"#.to_string());
    lines.push(format!(
        r#"{{"timestamp":"2026-07-15T01:01:01Z","type":"event_msg","payload":{{"type":"task_complete","turn_id":"{turn}","duration_ms":60000,"time_to_first_token_ms":5000}}}}"#
    ));
    lines
}

fn collect(files: &[(&str, Vec<String>)], start: Option<i64>, end: Option<i64>) -> TurnCollector {
    let mut collector = TurnCollector::new(start, end);
    for (path, lines) in files {
        collector.collect_file_turns(path, lines);
    }
    collector
}

#[test]
fn aggregates_and_deduplicates_turn_metrics() {
    let collector = collect(
        &[
            ("first.jsonl", fixture("session-a", "turn-a", 2)),
            ("duplicate.jsonl", fixture("session-copy", "turn-a", 2)),
            ("second.jsonl", fixture("session-b", "turn-b", 3)),
        ],
        None,
        None,
    );
    assert!(summary_fits(&collector.turns));
    let result = summarize_turns(&collector.turns, None, None).unwrap();

    assert_eq!(result.completed_turns, 2);
    assert_eq!(result.session_count, 2);
    assert_eq!(result.model_requests, 5);
    assert_eq!(result.mcp_calls[0].name, "playwright");
    assert_eq!(result.mcp_calls[0].count, 2);
    assert_eq!(result.skill_calls[0].name, "frontend-patterns");
    assert_eq!(result.skill_calls[0].count, 2);
    // Both turns alike, so every percentile is the one value.
    assert_eq!(result.ttfts_ms, vec![JsonNumber::Unsigned(5_000); 2]);
    assert_eq!(result.durations_ms, vec![JsonNumber::Unsigned(60_000); 2]);
    assert_eq!(result.input_tokens, 1100 + 1200);
    assert_eq!(result.cached_input_tokens, 880 + 960);
    assert_eq!(result.output_tokens, 120 + 140);
    assert_eq!(result.observed_ms, 60_000);
}

#[test]
fn fuller_copy_of_a_turn_counts() {
    let files = [
        ("short.jsonl", fixture("short", "turn", 1)),
        ("long.jsonl", fixture("long", "turn", 4)),
        ("again.jsonl", fixture("again", "turn", 2)),
    ];
    let collector = collect(&files, None, None);
    assert_eq!(collector.turns.len(), 1);
    assert_eq!(collector.turns[0].0, "turn");
    assert_eq!(collector.turns[0].1.session_id, "long");
    assert_eq!(collector.turns[0].1.model_requests, 4);
}

#[test]
fn turns_outside_of_the_window_do_not_count() {
    let files = [("a.jsonl", fixture("s", "t", 1))];
    // 2026-07-15T01:01:01Z
    let end = 1_784_077_261;
    assert_eq!(collect(&files, Some(end), Some(end)).turns.len(), 1);
    assert_eq!(collect(&files, Some(end + 1), None).turns.len(), 0);
    assert_eq!(collect(&files, None, Some(end - 1)).turns.len(), 0);
    let collector = collect(&files, Some(end - 600), Some(end + 600));
    let result = summarize_turns(&collector.turns, collector.start_ms, collector.end_ms).unwrap();
    assert_eq!(result.observed_ms, 1_200_000);
    assert!(summarize_turns(&vec![], None, None).is_none());
    assert_eq!(TurnCollector::new(Some(i64::MAX), None).start_ms, Some(i64::MAX));
}

#[test]
fn repeated_call_counts_once() {
    let mut collector = TurnCollector::new(None, None);
    collector.begin_file("path.jsonl");
    let call = r#"{"type":"response_item","payload":{"payload":{"type":"function_call","call_id":"c1","name":"mcp__files__read","arguments":"a/skills/x/SKILL.md b/skills/x/SKILL.md"}}}"#;
    collector.observe_line(call);
    collector.observe_line(r#"{"timestamp":"2026-07-15T01:00:01Z","type":"event_msg","payload":{"type":"task_started","turn_id":"t"}}"#);
    collector.observe_line(call);
    collector.observe_line(call);
    collector.observe_line("no json");
    collector.observe_line(r#"{"timestamp":"2026-07-15T01:01:01Z","type":"event_msg","payload":{"type":"task_complete","duration_ms":1.5,"time_to_first_token_ms":-1}}"#);
    let turn = &collector.turns[0].1;
    assert_eq!(turn.session_id, "path.jsonl");
    assert_eq!(turn.mcp_calls.len(), 1);
    assert_eq!((turn.mcp_calls[0].name.as_str(), turn.mcp_calls[0].count), ("files", 1));
    assert_eq!((turn.skill_calls[0].name.as_str(), turn.skill_calls[0].count), ("x", 1));
    assert_eq!(turn.duration_ms, JsonNumber::Real(1.5f64.to_bits()));
    assert_eq!(turn.ttft_ms, JsonNumber::Negative(-1));
}

#[test]
fn turn_needs_its_times() {
    let started = |stamp: &str| {
        format!(r#"{{"timestamp":"{stamp}","type":"event_msg","payload":{{"type":"task_started","turn_id":"t"}}}}"#)
    };
    let done = |stamp: &str, rest: &str| {
        format!(r#"{{"timestamp":"{stamp}","type":"event_msg","payload":{{"type":"task_complete"{rest}}}}}"#)
    };
    let good = "2026-07-15T01:00:01Z";
    let both = ",\"duration_ms\":1,\"time_to_first_token_ms\":1";
    let count = |lines: Vec<String>| collect(&[("p", lines)], None, None).turns.len();
    assert_eq!(count(vec![started(good), done(good, both)]), 1);
    assert_eq!(count(vec![started("then"), done(good, both)]), 0);
    assert_eq!(count(vec![started(good), done("then", both)]), 0);
    assert_eq!(count(vec![started(good), done(good, ",\"duration_ms\":1")]), 0);
    assert_eq!(count(vec![done(good, both)]), 0);
}

#[test]
fn names_in_events() {
    assert_eq!(mcp_server_name("mcp__a__b__c").as_deref(), Some("a"));
    assert_eq!(mcp_server_name("mcp__a").as_deref(), Some("a"));
    assert_eq!(mcp_server_name("mcp____b"), None);
    assert_eq!(mcp_server_name("other__a"), None);
    assert_eq!(
        skill_names("cat skills/one/SKILL.md C:\\skills\\two\\SKILL.md myskills/no/SKILL.md"),
        vec!["two"]
    );
    assert_eq!(skill_names("skills/one/SKILL.md"), vec!["one"]);
    let names: Vec<String> = ["b", "a", "b"].iter().map(|name| name.to_string()).collect();
    assert_eq!(texts_once(&names), vec!["b", "a"]);
    let value = parse_json(r#"{"timestamp":"1970-01-01T00:00:01.234Z"}"#).unwrap();
    assert_eq!(parse_timestamp_ms(&value), Some(1234));
}

#[test]
fn token_snapshots() {
    let parse = |text: &str| parse_token_snapshot(&parse_json(text).unwrap());
    assert_eq!(
        parse(r#"{"info":{"total_token_usage":{"input_tokens":3,"cache_read_input_tokens":2,"output_tokens":1}}}"#),
        Some(TokenSnapshot { input: 3, cached_input: 2, output: 1 })
    );
    assert_eq!(
        parse(r#"{"info":{"total_token_usage":{"input_tokens":3,"output_tokens":1}}}"#),
        Some(TokenSnapshot { input: 3, cached_input: 0, output: 1 })
    );
    assert_eq!(parse(r#"{"info":{"total_token_usage":{"input_tokens":-3,"output_tokens":1}}}"#), None);
    assert_eq!(parse(r#"{"info":{}}"#), None);
}

#[test]
fn counts_are_merged_and_listed() {
    let count = |name: &str, count: u64| NamedCount { name: name.to_string(), count };
    let mut target = vec![count("b", 1)];
    merge_counts(&mut target, &vec![count("a", 2), count("b", 1), count("c", 5)]);
    let listed = sorted_counts(target);
    let names: Vec<(&str, u64)> = listed.iter().map(|c| (c.name.as_str(), c.count)).collect();
    assert_eq!(names, vec![("c", 5), ("a", 2), ("b", 2)]);
}

#[test]
fn logs_of_the_day_before_are_read() {
    let start = Some(200_000);
    assert!(is_recent(Some(113_600), start));
    assert!(!is_recent(Some(113_599), start));
    assert!(!is_recent(None, start));
    assert!(is_recent(None, None));
    assert!(is_recent(Some(0), Some(-5)));
    assert!(is_recent(Some(0), Some(i64::MIN)));
}
