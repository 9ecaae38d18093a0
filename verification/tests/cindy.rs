use cc_switch::cindy::{
    canonical_cindy_agent_kind, canonical_cindy_model, cindy_cost_usd, cindy_provider_id,
    cindy_upstream_app, CindyBillingKind, CindyCost, CindyDailyUsage, CindyTokenBuckets,
    CindyTurnUsage,
};
use cc_switch::cindy_assign::{assign_cindy_turn_models, CindySourceModel};
use cc_switch::cindy_ledger::CindyUsageSnapshot;
use cc_switch::cindy_plan::plan_cindy_usage;
use cc_switch::cindy_read::{
    cindy_account_id, cindy_daily_query, cindy_turn, cindy_turn_billing_hint,
    cindy_turn_query, cindy_user_data_dirs, collect_cindy_databases, discover_cindy_databases,
    CindyAgentMeta, CindyDir, CindyTurnCost, CindyTurnRow, CindyTurnUsageDetails,
};
use cc_switch::cindy_settle::{cindy_daily_rollup, settle_cindy_usage, CindyRollupRow};
use cc_switch::cindy_sync::{
    check_cindy_sources, cindy_marks, finish_cindy_refresh, gather_cindy_reads,
    reconcile_cindy_usage, sync_cindy_usage, CindyFileState, CindyRead,
};
use cc_switch::hash::{cindy_short_hash, cindy_source_set_marker, cindy_sync_key};
use cc_switch::insert::{
    choose_row, next_insert_stage, upstream_duplicate_cost, InsertEvent, InsertStage, MirrorRow,
    UpstreamRow,
};
use cc_switch::paths::DirEntry;
use cc_switch::sync::empty_result;
use cc_switch::usage::DesktopUsageRecord;

/// The application whose own agent Cindy runs, under a made-up name.
const APP: &str = "desk";
const DAY: &str = "2026-08-03";
const NOW: i64 = 1_785_735_281;
const MIRROR_MODEL: &str = "mirror-model";

type Tokens = (i64, i64, i64, i64);

fn buckets(tokens: Tokens) -> CindyTokenBuckets {
    CindyTokenBuckets {
        input: tokens.0,
        output: tokens.1,
        cache_read: tokens.2,
        cache_create: tokens.3,
    }
}

fn daily(day: &str, agent: &str, model: &str, cost_amount: f64, tokens: Tokens) -> CindyDailyUsage {
    CindyDailyUsage {
        day: day.to_string(),
        agent_kind: agent.to_string(),
        model: model.to_string(),
        cost_usd: 0f64.to_bits(),
        cost_amount: cost_amount.to_bits(),
        cost_currency: "USD".to_string(),
        cost_is_approximate: false,
        input_tokens: tokens.0,
        output_tokens: tokens.1,
        cache_read_tokens: tokens.2,
        cache_create_tokens: tokens.3,
    }
}

fn row(message: &str, session: &str, agent: &str, model: &str) -> CindyTurnRow {
    CindyTurnRow {
        message_id: message.to_string(),
        session_id: session.to_string(),
        created_at_ms: NOW * 1000,
        message_agent: Some(agent.to_string()),
        session_agent: agent.to_string(),
        session_model: model.to_string(),
        sdk_session_id: None,
        parent_session_id: None,
        session_created_at: NOW * 1000 - 1,
    }
}

fn meta(model: &str, tokens: Tokens, cost: Option<f64>) -> CindyAgentMeta {
    CindyAgentMeta {
        turn_completed: Some(true),
        turn_usage_details: Some(CindyTurnUsageDetails {
            input_tokens: Some(tokens.0 as u64),
            output_tokens: Some(tokens.1 as u64),
            cache_read_tokens: Some(tokens.2 as u64),
            cache_create_tokens: Some(tokens.3 as u64),
            model: Some(model.to_string()),
            models: Vec::new(),
            duration_ms: None,
            turn_duration_ms: Some(1234),
        }),
        turn_cost_usd: cost.map(|cost| cost.to_bits()),
        turn_cost: cost.map(|_| CindyTurnCost {
            approximate: Some(true),
            kind: Some("value-estimate".to_string()),
        }),
    }
}

fn read(row: CindyTurnRow, meta: CindyAgentMeta) -> Option<CindyTurnUsage> {
    cindy_turn("cindy-user-a.db", row, meta, Some((DAY.to_string(), NOW)))
}

fn turn(
    message: &str,
    session: &str,
    agent: &str,
    model: &str,
    tokens: Tokens,
    cost: Option<f64>,
) -> CindyTurnUsage {
    read(row(message, session, agent, model), meta(model, tokens, cost)).unwrap()
}

fn snapshot(daily: Vec<CindyDailyUsage>, turns: Vec<CindyTurnUsage>) -> CindyUsageSnapshot {
    CindyUsageSnapshot { account_id: "cindy-user-a.db".to_string(), daily, turns }
}

/// A row of a request log.
#[derive(Debug)]
struct Row {
    record: DesktopUsageRecord,
    request_model: String,
    data_source: String,
    cost: f64,
}

/// Cindy's rows in a database, and the rows of other applications there.
#[derive(Default)]
struct Ledger {
    rows: Vec<Row>,
    rollups: Vec<CindyRollupRow>,
    upstream: Vec<UpstreamRow>,
}

fn dollars(cost: &CindyCost) -> f64 {
    match cost {
        CindyCost::Nothing => 0.0,
        CindyCost::Amount(bits) => f64::from_bits(*bits),
        CindyCost::Sum(a, b) => f64::from_bits(*a) + f64::from_bits(*b),
    }
}

impl Ledger {
    fn insert(&mut self, record: &DesktopUsageRecord, mirror: Option<&MirrorRow>) -> bool {
        if self.rows.iter().any(|row| row.record.request_id == record.request_id) {
            return false;
        }
        let choice = choose_row(record, mirror);
        self.rows.push(Row {
            record: DesktopUsageRecord {
                request_id: record.request_id.clone(),
                app_type: record.app_type.clone(),
                data_source: record.data_source.clone(),
                provider_id: record.provider_id.clone(),
                model: record.model.clone(),
                session_id: record.session_id.clone(),
                error_message: None,
                upstream_dedup: None,
                ..*record
            },
            request_model: choice.request_model,
            data_source: choice.data_source,
            cost: f64::from_bits(choice.fixed_cost.unwrap_or(0)),
        });
        true
    }

    /// Puts Cindy's usage anew into the ledger.
    fn refresh(&mut self, sources: Vec<CindyUsageSnapshot>) -> (u32, bool) {
        let previous_rows = (self.rows.len() + self.rollups.len()) as i64;
        self.rows.clear();
        self.rollups.clear();
        let plan = plan_cindy_usage(sources, APP).unwrap();
        let mut outcomes = Vec::new();
        for planned in &plan.turns {
            let record = &planned.record;
            let mut stage = InsertStage::FindUpstream;
            let outcome = loop {
                let event = match stage {
                    InsertStage::FindUpstream => {
                        InsertEvent::Upstream(upstream_duplicate_cost(record, &self.upstream))
                    }
                    InsertStage::WriteMirror { total_cost_usd } => {
                        let mirror = MirrorRow {
                            request_model: MIRROR_MODEL.to_string(),
                            data_source: "mirror-source".to_string(),
                            total_cost_usd,
                        };
                        InsertEvent::Written(self.insert(record, Some(&mirror)))
                    }
                    InsertStage::CheckRecorded => InsertEvent::Recorded(false),
                    InsertStage::WriteRow => InsertEvent::Written(self.insert(record, None)),
                    InsertStage::Done(outcome) => break outcome,
                };
                stage = next_insert_stage(record, stage, event);
            };
            outcomes.push(outcome);
        }
        let settlement = settle_cindy_usage(&plan, &outcomes).unwrap();
        for residual in &settlement.residuals {
            let cost: f64 = residual.costs.iter().map(dollars).sum();
            let upstream: f64 = residual.upstream_costs.iter().map(|bits| f64::from_bits(*bits)).sum();
            let left = (cost - upstream).max(0.0);
            if let Some(row) = cindy_daily_rollup(residual, left.to_bits(), MIRROR_MODEL, APP) {
                self.rollups.push(row);
            }
        }
        let mut result = empty_result(0);
        let rollup_rows = self.rollups.len() as u32;
        finish_cindy_refresh(&mut result, settlement.imported, rollup_rows, previous_rows);
        (result.imported, result.data_changed)
    }

    fn totals(&self) -> Tokens {
        let mut totals = (0, 0, 0, 0);
        for row in &self.rows {
            totals.0 += row.record.input_tokens as i64;
            totals.1 += row.record.output_tokens as i64;
            totals.2 += row.record.cache_read_tokens as i64;
            totals.3 += row.record.cache_creation_tokens as i64;
        }
        for row in &self.rollups {
            totals.0 += row.tokens.input;
            totals.1 += row.tokens.output;
            totals.2 += row.tokens.cache_read;
            totals.3 += row.tokens.cache_create;
        }
        totals
    }

    fn cost(&self) -> f64 {
        let rows: f64 = self.rows.iter().map(|row| row.cost).sum();
        let rollups: f64 = self.rollups.iter().map(|row| f64::from_bits(row.total_cost_usd)).sum();
        rows + rollups
    }
}

#[test]
fn cindy_approximate_usd_cost_is_preserved_for_estimated_display() {
    let usage = CindyDailyUsage {
        day: "2020-01-02".to_string(),
        agent_kind: "pi".to_string(),
        model: "gpt-test".to_string(),
        cost_usd: 0.1f64.to_bits(),
        cost_amount: 0.2f64.to_bits(),
        cost_currency: "USD".to_string(),
        cost_is_approximate: true,
        input_tokens: 10,
        output_tokens: 2,
        cache_read_tokens: 0,
        cache_create_tokens: 0,
    };
    assert!((dollars(&cindy_cost_usd(&usage)) - 0.3).abs() < f64::EPSILON * 2.0);
}

#[test]
fn cost_in_another_currency_is_not_relabelled() {
    let cost = |older: f64, amount: f64, currency: &str, approximate: bool| {
        let mut usage = daily(DAY, "pi", "m", amount, (1, 0, 0, 0));
        usage.cost_usd = older.to_bits();
        usage.cost_currency = currency.to_string();
        usage.cost_is_approximate = approximate;
        cindy_cost_usd(&usage)
    };
    assert_eq!(cost(0.5, 0.25, "usd", false), CindyCost::Sum(0.5f64.to_bits(), 0.25f64.to_bits()));
    assert_eq!(cost(0.5, 2.0, "CNY", false), CindyCost::Nothing);
    assert_eq!(cost(0.5, 0.0, "CNY", false), CindyCost::Amount(0.5f64.to_bits()));
    assert_eq!(cost(0.5, 0.0, "CNY", true), CindyCost::Nothing);
    assert_eq!(cost(-1.0, f64::NAN, "USD", false), CindyCost::Sum(0, 0));
    assert_eq!(cost(f64::INFINITY, -3.0, "CNY", false), CindyCost::Amount(0));
}

fn entry(name: &str, is_file: bool) -> DirEntry {
    DirEntry { name: name.to_string(), is_file }
}

#[test]
fn cindy_database_discovery_only_accepts_root_account_databases() {
    let entries = vec![
        entry("cindy-user-b.db", true),
        entry("cindy-user-a.db", true),
        entry("cindy-user-a.db-wal", true),
        entry("cindy-user-a.db.migration-runtime.json", true),
        entry("other.db", true),
        entry("config-backups", false),
        entry("cindy-folder.db", false),
    ];
    let databases = collect_cindy_databases(&entries);
    assert_eq!(databases, vec!["cindy-user-a.db", "cindy-user-b.db"]);
}

#[test]
fn cindy_discovery_prefers_canonical_copy_for_the_same_account() {
    let canonical = CindyDir {
        path: "/data/CindyGlobal".to_string(),
        entries: vec![entry("cindy-user-a.db", true)],
    };
    let legacy = CindyDir {
        path: "/data/Cindy".to_string(),
        entries: vec![entry("cindy-user-a.db", true), entry("cindy-user-b.db", true)],
    };

    let databases = discover_cindy_databases(&vec![canonical, legacy]);

    assert_eq!(
        databases,
        vec!["/data/CindyGlobal/cindy-user-a.db", "/data/Cindy/cindy-user-b.db"]
    );
}

#[test]
fn cindy_sync_prefers_turn_details_and_writes_only_daily_residual() {
    let mut ledger = Ledger::default();
    let (imported, _) = ledger.refresh(vec![snapshot(
        vec![daily(DAY, "pi", "gpt-test#billing=api", 0.0, (100, 20, 70, 10))],
        vec![turn("message-1", "session-1", "pi", "gpt-test", (60, 10, 40, 5), None)],
    )]);
    assert_eq!(imported, 2);

    let detail = &ledger.rows[0].record;
    assert_eq!(ledger.rows[0].data_source, "cindy_turn");
    assert_eq!(
        (
            detail.model.as_str(),
            detail.input_tokens,
            detail.output_tokens,
            detail.cache_read_tokens,
            detail.cache_creation_tokens,
            detail.latency_ms,
            detail.duration_ms,
        ),
        ("gpt-test#billing=api", 60, 10, 40, 5, 0, Some(1234))
    );
    assert_eq!(ledger.rollups[0].tokens, buckets((40, 10, 30, 5)));
    assert_eq!(ledger.totals(), (100, 20, 70, 10));
}

#[test]
fn cindy_sync_omits_residual_when_turn_fully_covers_daily_tokens() {
    let mut ledger = Ledger::default();
    let (imported, _) = ledger.refresh(vec![snapshot(
        vec![daily(DAY, "codex", "gpt-test", 0.0, (60, 10, 40, 5))],
        vec![turn("message-1", "session-1", "codex", "gpt-test", (60, 10, 40, 5), None)],
    )]);
    assert_eq!(imported, 1);
    assert_eq!((ledger.rows.len(), ledger.rollups.len()), (1, 0));
}

#[test]
fn cindy_sync_falls_back_to_daily_when_turn_tokens_exceed_daily() {
    let mut ledger = Ledger::default();
    ledger.refresh(vec![snapshot(
        vec![daily(DAY, "pi", "gpt-test", 0.0, (50, 10, 20, 5))],
        vec![turn("message-1", "session-1", "pi", "gpt-test", (60, 10, 20, 5), None)],
    )]);
    assert_eq!(ledger.rows.len(), 0);
    assert_eq!(ledger.rollups.len(), 1);
    assert_eq!(ledger.rollups[0].tokens, buckets((50, 10, 20, 5)));
}

#[test]
fn cindy_sync_falls_back_to_daily_when_turn_has_no_matching_daily_key() {
    let mut ledger = Ledger::default();
    ledger.refresh(vec![snapshot(
        vec![daily(DAY, "pi", "daily-model", 0.0, (50, 10, 20, 5))],
        vec![turn("message-1", "session-1", "pi", "turn-only-model", (20, 5, 10, 2), None)],
    )]);
    assert_eq!(ledger.rows.len(), 0);
    assert_eq!(ledger.rollups.len(), 1);
    assert_eq!(ledger.rollups[0].model, "daily-model");
    assert_eq!(ledger.rollups[0].tokens, buckets((50, 10, 20, 5)));
}

#[test]
fn forced_cindy_reconcile_keeps_pi_attribution_without_global_double_count() {
    let sources = || {
        let mut turn = turn("message-1", "session-1", "pi", "gpt-test", (10, 2, 3, 4), None);
        turn.sdk_session_id = Some("sdk-session".to_string());
        vec![snapshot(vec![daily(DAY, "pi", "gpt-test", 0.25, (10, 2, 3, 4))], vec![turn])]
    };
    let mut ledger = Ledger::default();
    ledger.refresh(sources());
    assert_eq!(ledger.rows.len(), 1);
    ledger.upstream.push(UpstreamRow {
        app_type: "pi".to_string(),
        session_id: "sdk-session".to_string(),
        created_at: NOW,
        input_tokens: 10,
        output_tokens: 2,
        cache_read_tokens: 3,
        cache_creation_tokens: 4,
        model: "gpt-test".to_string(),
        total_cost_usd: Some(0.2f64.to_bits()),
    });

    let (imported, data_changed) = ledger.refresh(sources());
    assert_eq!(imported, 2);
    assert!(data_changed);
    assert_eq!(ledger.rows.len() + ledger.rollups.len(), 2);
    assert_eq!(ledger.rows[0].request_model, MIRROR_MODEL);
    assert_eq!(ledger.totals().0, 10);
    assert!((ledger.cost() - 0.25).abs() < 1e-9);
}

#[test]
fn cindy_sync_preserves_daily_model_variants_when_detail_mapping_is_ambiguous() {
    let mut ledger = Ledger::default();
    ledger.refresh(vec![snapshot(
        vec![
            daily(DAY, "codex", "gpt-test#billing=api", 0.0, (40, 10, 20, 5)),
            daily(DAY, "codex", "gpt-test#billing=subscription", 0.0, (60, 10, 20, 5)),
        ],
        vec![turn("message-1", "session-1", "codex", "gpt-test", (100, 20, 40, 10), None)],
    )]);
    assert_eq!(ledger.rows.len(), 0);
    assert_eq!(ledger.rollups.len(), 2);
}

#[test]
fn cindy_sync_maps_billing_variants_from_turn_cost_metadata() {
    let mut ledger = Ledger::default();
    let (imported, _) = ledger.refresh(vec![snapshot(
        vec![
            daily(DAY, "codex", "gpt-test#billing=api", 0.05, (10, 2, 3, 1)),
            daily(DAY, "codex", "gpt-test#billing=subscription", 0.75, (20, 4, 6, 2)),
        ],
        vec![
            turn("api-message", "api-session", "codex", "gpt-test", (10, 2, 3, 1), None),
            turn(
                "subscription-message",
                "subscription-session",
                "codex",
                "gpt-test",
                (20, 4, 6, 2),
                Some(0.75),
            ),
        ],
    )]);
    assert_eq!(imported, 4);
    let mut models: Vec<&str> = ledger.rows.iter().map(|row| row.record.model.as_str()).collect();
    models.sort();
    assert_eq!(models, vec!["gpt-test#billing=api", "gpt-test#billing=subscription"]);
    assert!(ledger.rows.iter().all(|row| row.record.provider_id == "_cindy_codex"));
    let totals = ledger.totals();
    assert_eq!(totals.0 + totals.1 + totals.2 + totals.3, 48);
    assert!((ledger.cost() - 0.8).abs() < 1e-9);
}

#[test]
fn duplicate_of_the_own_agent_is_visible_in_cindy_but_not_global_totals() {
    let mut turn = turn("own-message", "own-session", "cc", "big-model", (100, 20, 30, 10), None);
    turn.sdk_session_id = Some("shared-sdk-session".to_string());
    let mut ledger = Ledger::default();
    ledger.upstream.push(UpstreamRow {
        app_type: APP.to_string(),
        session_id: "shared-sdk-session".to_string(),
        created_at: NOW,
        input_tokens: 100,
        output_tokens: 20,
        cache_read_tokens: 30,
        cache_creation_tokens: 10,
        model: "big-model[1m]".to_string(),
        total_cost_usd: Some(0.57319375f64.to_bits()),
    });
    let own_agent = format!("{APP}-code");
    let (imported, _) = ledger.refresh(vec![snapshot(
        vec![daily(DAY, &own_agent, "big-model[1m]", 0.57319375, (100, 20, 30, 10))],
        vec![turn],
    )]);
    assert_eq!(imported, 1);
    assert_eq!((ledger.rows.len(), ledger.rollups.len()), (1, 0));
    let mirror = &ledger.rows[0];
    assert_eq!(mirror.data_source, "mirror-source");
    assert_eq!(mirror.request_model, MIRROR_MODEL);
    assert_eq!(mirror.cost.to_string(), "0.57319375");
    let totals = ledger.totals();
    assert_eq!(totals.0 + totals.1 + totals.2 + totals.3, 160);
}

#[test]
fn cindy_sync_ignores_historical_turns_copied_into_fork_sessions() {
    let mut copied = row("copied-message", "fork-session", "codex", "gpt-test");
    copied.created_at_ms = NOW * 1000 - 1_000;
    copied.parent_session_id = Some("parent-session".to_string());
    copied.session_created_at = NOW * 1000;
    assert!(read(copied, meta("gpt-test", (60, 10, 40, 5), None)).is_none());

    let mut ledger = Ledger::default();
    ledger.refresh(vec![snapshot(
        vec![daily(DAY, "codex", "gpt-test", 0.0, (60, 10, 40, 5))],
        vec![],
    )]);
    assert_eq!((ledger.rows.len(), ledger.rollups.len()), (0, 1));
}

#[test]
fn cindy_v5_sync_rebuilds_when_only_v4_markers_exist() {
    let path = "/data/Cindy/cindy-user-a.db";
    let v4_key = format!("desktop:cindy:v4:{}", cindy_short_hash(&vec![path]));
    assert_ne!(cindy_sync_key(path), v4_key);
    // Nothing is noted under the names of today, so the database is read.
    let files = vec![CindyFileState { path: path.to_string(), modified: Some(5), synced: 0 }];
    let check = check_cindy_sources(&files, 0, false);
    assert!(check.due);

    let mut ledger = Ledger::default();
    let (imported, _) = ledger.refresh(vec![snapshot(
        vec![daily("2020-01-02", "pi", "gpt-test", 0.0, (10, 2, 0, 0))],
        vec![],
    )]);
    assert_eq!(imported, 1);
    assert_eq!(ledger.rollups.len(), 1);
}

#[test]
fn cindy_sync_imports_daily_model_usage_and_replaces_changed_totals() {
    let own_agent = format!("{APP}-code");
    let sources = |cost: f64, input: i64, output: i64| {
        let mut first = daily(DAY, "pi", "gpt-test", cost, (input, output, 70, 10));
        first.cost_usd = cost.to_bits();
        let mut second = daily(DAY, &own_agent, "shared-model", 1.0, (999, 99, 0, 0));
        second.cost_usd = 1f64.to_bits();
        vec![snapshot(vec![first, second], vec![])]
    };
    let mut ledger = Ledger::default();
    let (imported, _) = ledger.refresh(sources(0.125, 100, 20));
    assert_eq!(imported, 2);
    let row = ledger.rollups.iter().find(|row| row.provider_id == "_cindy_pi").unwrap();
    assert_eq!(row.app_type, "cindy");
    assert_eq!(row.model, "gpt-test");
    assert_eq!(row.request_model, "gpt-test");
    assert_eq!(row.tokens, buckets((100, 20, 70, 10)));
    assert_eq!(f64::from_bits(row.total_cost_usd).to_string(), "0.25");
    let own = ledger.rollups.iter().find(|row| row.model == "shared-model").unwrap();
    assert_eq!(own.provider_id, "_cindy_desk_code");
    assert_eq!(own.request_model, MIRROR_MODEL);

    let (imported, _) = ledger.refresh(sources(0.2, 140, 25));
    assert_eq!(imported, 2);
    let row = ledger.rollups.iter().find(|row| row.provider_id == "_cindy_pi").unwrap();
    assert_eq!(row.tokens.input, 140);
    assert_eq!(row.tokens.output, 25);
    assert_eq!(f64::from_bits(row.total_cost_usd).to_string(), "0.4");

    let (imported, data_changed) = ledger.refresh(vec![]);
    assert_eq!(imported, 0);
    assert!(data_changed);
    assert_eq!(ledger.rollups.len(), 0);
}

#[test]
fn cindy_sync_keeps_completed_days_in_zero_request_rollups() {
    let mut ledger = Ledger::default();
    let (imported, _) = ledger.refresh(vec![snapshot(
        vec![daily("2020-01-02", "codex", "gpt-history", 0.3, (5_000_000_000, 30, 20, 10))],
        vec![],
    )]);
    assert_eq!(imported, 1);
    let row = &ledger.rollups[0];
    assert_eq!(row.date, "2020-01-02");
    assert_eq!(row.tokens.input, 5_000_000_000);
    assert_eq!(row.tokens.cache_read, 20);
    assert_eq!(f64::from_bits(row.total_cost_usd).to_string(), "0.3");
    assert_eq!(ledger.rows.len(), 0);
}

#[test]
fn cindy_sync_skips_incompatible_accounts_without_blocking_valid_usage() {
    let files = vec![
        CindyFileState { path: "/c/cindy-legacy.db".to_string(), modified: Some(1), synced: 0 },
        CindyFileState { path: "/c/cindy-valid.db".to_string(), modified: Some(2), synced: 0 },
    ];
    let check = check_cindy_sources(&files, 0, false);
    assert!(check.due && !check.incomplete);
    assert_eq!(check.result.files_scanned, 2);
    let reads = vec![
        CindyRead::NoDailyTable,
        CindyRead::Usage(snapshot(
            vec![daily("2020-01-02", "pi", "valid-model", 0.0, (10, 2, 0, 0))],
            vec![],
        )),
    ];
    let mut result = check_cindy_sources(&files, 0, false).result;
    let sources = gather_cindy_reads(&check, &mut result, reads).unwrap();
    assert_eq!(result.errors.len(), 1);
    assert_eq!(
        result.errors[0],
        "Cindy 账号用量跳过: 数据库版本尚无 daily_model_usage 表"
    );
    let mut ledger = Ledger::default();
    let (imported, _) = ledger.refresh(sources);
    assert_eq!(imported, 1);
    assert_eq!(ledger.rollups.len(), 1);
}

#[test]
fn failed_read_leaves_everything_for_the_next_run() {
    let files = vec![
        CindyFileState { path: "/c/a.db".to_string(), modified: None, synced: 0 },
        CindyFileState { path: "/c/b.db".to_string(), modified: Some(2), synced: 2 },
    ];
    let check = check_cindy_sources(&files, 0, false);
    assert!(check.incomplete && check.due);
    let id = cindy_short_hash(&vec!["/c/a.db"]);
    assert_eq!(check.result.errors, vec![format!("Cindy 数据库元数据读取失败 ({id})")]);
    let mut result = check_cindy_sources(&files, 0, false).result;
    assert!(gather_cindy_reads(&check, &mut result, vec![]).is_none());

    let known = vec![CindyFileState { path: "/c/b.db".to_string(), modified: Some(2), synced: 2 }];
    let marker = cindy_source_set_marker(&vec!["/c/b.db".to_string()]);
    let check = check_cindy_sources(&known, marker, false);
    assert!(!check.due);
    assert!(check_cindy_sources(&known, marker, true).due);
    assert!(check_cindy_sources(&known, marker + 1, false).due);
    let mut result = check_cindy_sources(&known, marker, true).result;
    let failed = vec![CindyRead::Failed("locked".to_string())];
    assert!(gather_cindy_reads(&check, &mut result, failed).is_none());
    assert_eq!(result.errors, vec!["Cindy 账号用量读取失败: locked"]);
    let marks = cindy_marks(&check.files, check.marker);
    assert_eq!(
        marks,
        vec![
            (cindy_sync_key("/c/b.db"), 2),
            ("desktop:cindy:v5:source-set".to_string(), marker),
        ]
    );
}

#[test]
fn usage_of_vanished_databases_is_cleared() {
    let noted = cindy_source_set_marker(&vec!["/c/b.db".to_string()]);
    let check = check_cindy_sources(&vec![], noted, false);
    assert!(check.due && !check.incomplete);
    assert!(check.files.is_empty());
    let mut result = check_cindy_sources(&vec![], noted, false).result;
    let sources = gather_cindy_reads(&check, &mut result, vec![]).unwrap();
    let plan = plan_cindy_usage(sources, APP).unwrap();
    assert!(plan.turns.is_empty() && plan.daily.is_empty());
    let settlement = settle_cindy_usage(&plan, &vec![]).unwrap();
    assert!(settlement.residuals.is_empty());
    finish_cindy_refresh(&mut result, settlement.imported, 0, 3);
    assert_eq!((result.imported, result.files_scanned), (0, 0));
    assert!(result.data_changed && result.errors.is_empty());
    let marks = cindy_marks(&check.files, check.marker);
    assert_eq!(marks, vec![("desktop:cindy:v5:source-set".to_string(), check.marker)]);
    assert!(!check_cindy_sources(&vec![], check.marker, false).due);
}

#[test]
fn sync_looks_at_the_databases_that_are_found() {
    let dirs = vec![CindyDir {
        path: "/data/Cindy".to_string(),
        entries: vec![entry("cindy-a.db", true), entry("x.db", true)],
    }];
    let path = "/data/Cindy/cindy-a.db".to_string();
    let states = vec![CindyFileState { path: path.clone(), modified: Some(9), synced: 9 }];
    let marker = cindy_source_set_marker(&vec![path.clone()]);
    let check = sync_cindy_usage(&dirs, &states, marker);
    assert_eq!(check.files, vec![(path, 9)]);
    assert!(!check.due);
    assert!(reconcile_cindy_usage(&dirs, &states, marker).due);
    assert_eq!(cindy_user_data_dirs(Some("/x"), Some("/base")), vec!["/x"]);
    assert_eq!(
        cindy_user_data_dirs(Some(""), Some("/base")),
        vec!["/base/CindyGlobal", "/base/Cindy"]
    );
    assert!(cindy_user_data_dirs(None, None).is_empty());
}

#[test]
fn invalid_day_fails_the_refresh() {
    let error = |day: &str| {
        let usage = daily(day, "pi", "m", 0.0, (1, 0, 0, 0));
        plan_cindy_usage(vec![snapshot(vec![usage], vec![])], APP).err().unwrap().text().to_string()
    };
    assert_eq!(
        error("2026-02-30"),
        "Cindy 用量日期格式无效 2026-02-30: input is out of range"
    );
    assert!(error("today").starts_with("Cindy 用量日期格式无效 today: "));
}

#[test]
fn turns_without_usage_are_passed_over() {
    let base = || (row("m", "s", "pi", "gpt-test"), meta("gpt-test", (1, 0, 0, 0), None));
    assert!(read(base().0, base().1).is_some());
    let (line, mut open) = base();
    open.turn_completed = None;
    assert!(read(line, open).is_none());
    let (line, mut bare) = base();
    bare.turn_usage_details = None;
    assert!(read(line, bare).is_none());
    let (line, mut mixed) = base();
    if let Some(details) = &mut mixed.turn_usage_details {
        details.models = vec!["a".to_string(), "b".to_string()];
    }
    assert!(read(line, mixed).is_none());
    assert!(read(base().0, meta("gpt-test", (0, 0, 0, 0), None)).is_none());
    assert!(cindy_turn("a", base().0, base().1, None).is_none());
}

#[test]
fn turn_takes_its_names_from_the_message_first() {
    let mut line = row("m", "s", " ", "session-model");
    line.session_agent = "cc".to_string();
    let mut facts = meta(" ", (1, 2, 3, 5_000_000_000), None);
    if let Some(details) = &mut facts.turn_usage_details {
        details.duration_ms = Some(7);
    }
    let turn = read(line, facts).unwrap();
    let account = cindy_short_hash(&vec!["cindy-user-a.db"]);
    let message = cindy_short_hash(&vec!["cindy-user-a.db", "turn", "m"]);
    assert_eq!(turn.request_id, format!("cindy:turn:{message}"));
    assert_eq!(turn.session_id, format!("cindy:{account}:s"));
    assert_eq!(turn.agent_kind, "cc");
    assert_eq!(turn.canonical_model, "session-model");
    assert_eq!(turn.day, DAY);
    assert_eq!(turn.created_at, NOW);
    assert_eq!(turn.duration_ms, 7);
    assert_eq!(turn.cache_create_tokens, u32::MAX);
}

#[test]
fn agent_goes_by_one_name() {
    assert_eq!(canonical_cindy_agent_kind("cc", APP), "desk-code");
    assert_eq!(canonical_cindy_agent_kind("desk-code", APP), "desk-code");
    assert_eq!(canonical_cindy_agent_kind("pi", APP), "pi");
    assert_eq!(cindy_provider_id("codex", APP), "_cindy_codex");
    assert_eq!(cindy_provider_id("other", APP), "_cindy_session");
    assert_eq!(cindy_provider_id("pi", APP), "_cindy_pi");
    assert_eq!(cindy_upstream_app("codex", APP).as_deref(), Some("codex"));
    assert_eq!(cindy_upstream_app("pi", APP).as_deref(), Some("pi"));
    assert_eq!(cindy_upstream_app("other", APP), None);
    for name in ["cc", "desk-code"] {
        assert_eq!(cindy_provider_id(name, APP), "_cindy_desk_code");
        assert_eq!(cindy_upstream_app(name, APP).as_deref(), Some("desk"));
    }
}

#[test]
fn row_and_turn_of_one_agent_meet_under_either_name() {
    for (row, line) in [("cc", "cc"), ("cc", "desk-code"), ("desk-code", "cc")] {
        let mut turn = turn("m", "s", line, "big-model", (10, 2, 0, 0), None);
        turn.sdk_session_id = Some("sdk".to_string());
        let rows = vec![daily(DAY, row, "big-model", 0.0, (10, 2, 0, 0))];
        let plan = plan_cindy_usage(vec![snapshot(rows, vec![turn])], APP).unwrap();
        assert_eq!(plan.daily.len(), 1);
        assert_eq!(plan.daily[0].key.agent_kind, "desk-code");
        assert_eq!(plan.turns.len(), 1);
        assert_eq!(plan.turns[0].record.provider_id, "_cindy_desk_code");
        let upstream = plan.turns[0].record.upstream_dedup.as_ref().unwrap();
        assert_eq!((upstream.app_type.as_str(), upstream.session_id.as_str()), ("desk", "sdk"));
    }
    let rows = vec![
        daily(DAY, "cc", "big-model", 0.0, (10, 2, 0, 0)),
        daily(DAY, "desk-code", "big-model", 0.0, (1, 1, 0, 0)),
    ];
    let plan = plan_cindy_usage(vec![snapshot(rows, vec![])], APP).unwrap();
    assert_eq!(plan.daily.len(), 1);
    assert_eq!(plan.daily[0].source_models[0].tokens, buckets((11, 3, 0, 0)));
}

#[test]
fn refresh_keeps_the_usage_of_every_model() {
    let mut ledger = Ledger::default();
    let mut other = snapshot(
        vec![daily("2026-08-02", "pi", "shared", 0.0, (7, -3, 0, 1))],
        vec![],
    );
    other.account_id = "cindy-user-b.db".to_string();
    ledger.refresh(vec![
        snapshot(
            vec![
                daily(DAY, "codex", "shared", 0.0, (100, 20, 5, 0)),
                daily(DAY, "codex", "alone", 0.0, (30, 3, 0, 0)),
            ],
            vec![
                turn("m1", "s", "codex", "shared", (60, 10, 5, 0), None),
                turn("m2", "s", "codex", "alone", (30, 3, 0, 0), None),
                turn("m3", "s", "codex", "unlisted", (9, 9, 9, 9), None),
            ],
        ),
        other,
    ]);
    let of = |model: &str| {
        let mut sum = (0, 0, 0, 0);
        for row in ledger.rows.iter().filter(|row| row.record.model == model) {
            sum.0 += row.record.input_tokens as i64;
            sum.1 += row.record.output_tokens as i64;
            sum.2 += row.record.cache_read_tokens as i64;
            sum.3 += row.record.cache_creation_tokens as i64;
        }
        for row in ledger.rollups.iter().filter(|row| row.model == model) {
            sum.0 += row.tokens.input;
            sum.1 += row.tokens.output;
            sum.2 += row.tokens.cache_read;
            sum.3 += row.tokens.cache_create;
        }
        sum
    };
    assert_eq!(of("shared"), (107, 20, 5, 1));
    assert_eq!(of("alone"), (30, 3, 0, 0));
    assert_eq!(of("unlisted"), (0, 0, 0, 0));
    assert_eq!((ledger.rows.len(), ledger.rollups.len()), (2, 2));
}

#[test]
fn model_goes_by_one_name() {
    assert_eq!(canonical_cindy_model(" gpt-test#billing=api "), "gpt-test");
    assert_eq!(canonical_cindy_model("big-model[1m]#billing=x"), "big-model");
    assert_eq!(canonical_cindy_model(""), "unknown");
}

#[test]
fn billing_is_told_from_the_cost() {
    let hint = |usd: Option<f64>, cost: Option<(Option<bool>, Option<&str>)>| {
        let mut facts = meta("m", (1, 0, 0, 0), None);
        facts.turn_cost_usd = usd.map(|value| value.to_bits());
        facts.turn_cost = cost.map(|cost| CindyTurnCost {
            approximate: cost.0,
            kind: cost.1.map(|kind| kind.to_string()),
        });
        cindy_turn_billing_hint(&facts)
    };
    assert_eq!(hint(None, Some((Some(true), None))), Some(CindyBillingKind::Subscription));
    assert_eq!(
        hint(None, Some((Some(false), Some("Value-Estimate")))),
        Some(CindyBillingKind::Subscription)
    );
    assert_eq!(hint(None, Some((Some(false), None))), Some(CindyBillingKind::Api));
    assert_eq!(hint(Some(0.5), Some((None, None))), Some(CindyBillingKind::Subscription));
    assert_eq!(hint(Some(0.5), None), Some(CindyBillingKind::Subscription));
    assert_eq!(hint(Some(f64::NAN), None), None);
    assert_eq!(hint(None, None), None);
}

#[test]
fn turns_are_assigned_within_the_daily_tokens() {
    let model = |name: &str, tokens: Tokens| CindySourceModel {
        model: name.to_string(),
        tokens: buckets(tokens),
        costs: vec![],
    };
    let one = vec![model("m", (10, 0, 0, 0))];
    let turns = |inputs: &[i64]| -> Vec<CindyTurnUsage> {
        inputs
            .iter()
            .map(|input| turn(&input.to_string(), "s", "pi", "m", (*input, 0, 0, 0), None))
            .collect()
    };
    assert_eq!(assign_cindy_turn_models(&one, &turns(&[4, 6])), Some(vec![0, 0]));
    assert_eq!(assign_cindy_turn_models(&one, &turns(&[4, 7])), None);
    assert_eq!(assign_cindy_turn_models(&vec![], &turns(&[1])), None);
}

#[test]
fn daily_rows_of_one_model_are_added_up() {
    let mut ledger = Ledger::default();
    let mut negative = daily(DAY, "pi", " ", 0.0, (-5, 1, 0, 0));
    negative.cost_currency = "CNY".to_string();
    let (imported, _) = ledger.refresh(vec![snapshot(
        vec![
            daily(DAY, "pi", "m", 0.25, (10, 0, 0, 0)),
            daily(DAY, "pi", "m", 0.5, (i64::MAX, 2, 0, 0)),
            negative,
        ],
        vec![],
    )]);
    assert_eq!(imported, 2);
    assert_eq!(ledger.rollups[0].tokens, buckets((i64::MAX, 2, 0, 0)));
    assert_eq!(f64::from_bits(ledger.rollups[0].total_cost_usd), 0.75);
    assert_eq!(ledger.rollups[1].model, "unknown");
    assert_eq!(ledger.rollups[1].tokens, buckets((0, 1, 0, 0)));
}

#[test]
fn queries_follow_the_columns() {
    let columns = |names: &[&str]| names.iter().map(|name| name.to_string()).collect();
    let required = [
        "day",
        "agent_kind",
        "model",
        "input_tokens",
        "output_tokens",
        "cache_read_tokens",
        "cache_create_tokens",
    ];
    assert_eq!(
        cindy_daily_query(&columns(&required)).unwrap(),
        "SELECT day, agent_kind, model, 0, 0, 'USD', 0, input_tokens, output_tokens, \
         cache_read_tokens, cache_create_tokens FROM daily_model_usage \
         ORDER BY day, agent_kind, model, 'USD'"
    );
    assert_eq!(cindy_daily_query(&columns(&required[1..])), None);
    let messages = columns(&["id", "session_id", "role", "created_at", "agent_meta", "agent_kind"]);
    let query = cindy_turn_query(&messages, &columns(&["id", "model"])).unwrap();
    assert_eq!(
        query,
        "SELECT m.id, m.session_id, m.created_at, m.agent_meta, m.agent_kind, 'unknown', \
         COALESCE(s.model, 'unknown'), NULL, NULL, 0 FROM messages m \
         JOIN sessions s ON s.id = m.session_id WHERE m.role = 'assistant' \
         AND m.agent_meta IS NOT NULL AND m.created_at >= ?1 ORDER BY m.created_at, m.id"
    );
    assert_eq!(cindy_turn_query(&columns(&["id"]), &columns(&["id"])), None);
}

#[test]
fn hashes_of_parts() {
    // The parts are each followed by a zero byte: SHA-256 of "a\0b\0".
    assert_eq!(cindy_short_hash(&vec!["a", "b"]), "8fb20ef63ced4145fc2e983ffe597d1d");
    assert_eq!(cindy_account_id("/data/cindy-user-a.db"), "cindy-user-a.db");
    assert_eq!(cindy_account_id("/"), cindy_short_hash(&vec!["/"]));
    assert!(cindy_source_set_marker(&vec![]) >= 0);
}
