use cc_switch::accounts::{AuthFile, AuthSnapshot};
use cc_switch::capture::capture_current;
use cc_switch::error::AppError;
use cc_switch::json::{parse_json, Json};
use cc_switch::registry::{
    account_paths, is_json_named, list_accounts, read_registry_with_snapshot_scan, Registry,
    RegistryItem, SnapshotFile,
};
use cc_switch::restart::{restart_codex_app, restart_step, RestartEvent, RestartStage};
use cc_switch::switch::{
    check_account_key, find_latest_backup_for_account, needs_repair, rollback_last_switch,
    switch_account, AccountOp, LatestSwitch, LoginBackup, SwitchContext,
};

fn chatgpt(account: &str) -> AuthFile {
    AuthFile {
        auth: AuthSnapshot {
            auth_mode: Some("chatgpt".to_string()),
            tokens: Some(parse_json(&format!("{{\"account_id\": \"{account}\"}}")).unwrap()),
            openai_api_key: None,
        },
        claims: None,
    }
}

fn api_key(key: &str) -> AuthFile {
    AuthFile {
        auth: AuthSnapshot {
            auth_mode: Some("apikey".to_string()),
            tokens: None,
            openai_api_key: Some(Json::Text(key.to_string())),
        },
        claims: None,
    }
}

fn item(account: &str, alias: &str) -> RegistryItem {
    RegistryItem {
        account_key: format!("{account}::{account}"),
        snapshot_path: format!("/base/snapshots/{account}.json"),
        email: "abcdef@example.com".to_string(),
        alias: alias.to_string(),
        account_name: "Personal".to_string(),
        workspace_name: "Personal".to_string(),
        profile_name: String::new(),
        plan: "plus".to_string(),
        auth_mode: "chatgpt".to_string(),
        last_used_at: None,
        extra: parse_json("{\"kept\": 1}").unwrap(),
    }
}

fn registry(active: Option<&str>) -> Registry {
    let mut registry = Registry::new(1);
    registry.active_account_key = active.map(|account| format!("{account}::{account}"));
    registry.items = vec![item("a", "First"), item("b", " ")];
    registry
}

fn context() -> SwitchContext {
    SwitchContext {
        auth_path: "/codex/auth.json".to_string(),
        snapshots_dir: "/base/snapshots".to_string(),
        backups_dir: "/base/backups".to_string(),
        now: 1000,
        created_at: "2026-08-03T05:34:41+00:00".to_string(),
        stamp: "20260803-053441.000".to_string(),
        repair_stamp: "20260803-053440.999".to_string(),
    }
}

fn copies(ops: &[AccountOp]) -> Vec<(String, String)> {
    ops.iter()
        .filter_map(|op| match op {
            AccountOp::Copy { from, to } => Some((from.clone(), to.clone())),
            _ => None,
        })
        .collect()
}

fn pair(from: &str, to: &str) -> (String, String) {
    (from.to_string(), to.to_string())
}

#[test]
fn accounts_are_listed_with_the_active_one() {
    let listed = list_accounts(&registry(Some("b")));
    assert_eq!(listed.len(), 2);
    assert_eq!(listed[0].profile_name, "First");
    assert_eq!(listed[0].email_masked, "ab****@example.com");
    assert!(!listed[0].is_active);
    assert_eq!(listed[1].profile_name, "Personal");
    assert!(listed[1].is_active);
}

#[test]
fn snapshot_scan_adds_unknown_accounts_only() {
    let file = |path: &str, login: Option<AuthFile>| SnapshotFile {
        path: path.to_string(),
        login,
        modified: Some(7),
    };
    let broken = AuthFile {
        auth: AuthSnapshot { auth_mode: None, tokens: None, openai_api_key: None },
        claims: None,
    };
    let files = vec![
        file("/base/snapshots/a.json", Some(chatgpt("a"))),
        file("/base/snapshots/c.json", Some(chatgpt("c"))),
        file("/base/snapshots/d.txt", Some(chatgpt("d"))),
        file("/base/snapshots/e.json", Some(broken)),
        file("/base/snapshots/f.json", None),
    ];
    let scanned = read_registry_with_snapshot_scan(registry(Some("a")), &files);
    assert_eq!(scanned.items.len(), 3);
    let found = &scanned.items[2];
    assert_eq!(found.account_key, "c::c");
    assert_eq!(found.snapshot_path, "/base/snapshots/c.json");
    assert_eq!(found.profile_name, "Codex Account Snapshot");
    assert_eq!(found.auth_mode, "chatgpt");
    assert_eq!(found.last_used_at, Some(7));
    assert_eq!(scanned.active_account_key.as_deref(), Some("a::a"));
    assert!(is_json_named("/x/.y.json") && !is_json_named("/x/.json") && !is_json_named("/x/json"));
}

#[test]
fn switch_backs_up_keeps_and_exchanges() {
    let plan = switch_account(
        "b::b",
        registry(Some("a")),
        Ok(chatgpt("b")),
        &vec![],
        Some(Ok(chatgpt("a"))),
        &context(),
    );
    let backup = "/base/backups/20260803-053441.000__a__a.json";
    assert_eq!(
        copies(&plan.ops),
        vec![
            pair("/codex/auth.json", backup),
            pair("/codex/auth.json", "/base/snapshots/a.json"),
            pair("/base/snapshots/b.json", "/codex/auth.json"),
        ]
    );
    match &plan.ops[3] {
        AccountOp::WriteRegistry(registry) => {
            assert_eq!(registry.active_account_key.as_deref(), Some("b::b"));
            assert_eq!(registry.updated_at, 1000);
            assert_eq!(registry.items[0].last_used_at, None);
            assert_eq!(registry.items[1].last_used_at, Some(1000));
            assert_eq!(registry.items[1].extra.get_u64("kept"), Some(1));
        }
        other => panic!("unexpected operation {other:?}"),
    }
    match &plan.ops[4] {
        AccountOp::WriteLatest(latest) => {
            assert_eq!(latest.previous_account_key.as_deref(), Some("a::a"));
            assert_eq!(latest.active_account_key, "b::b");
            assert_eq!(latest.backup_path, backup);
            assert_eq!(latest.created_at, "2026-08-03T05:34:41+00:00");
        }
        other => panic!("unexpected operation {other:?}"),
    }
    let result = plan.outcome.unwrap();
    assert_eq!(result.previous_account_key.as_deref(), Some("a::a"));
    assert_eq!(result.active_account_key, "b::b");
    assert_eq!(result.backup_path, backup);
    assert!(result.restart_recommended);
}

#[test]
fn switch_to_the_active_account_does_nothing() {
    let plan = switch_account(
        "a::a",
        registry(Some("a")),
        Ok(chatgpt("a")),
        &vec![],
        Some(Ok(chatgpt("a"))),
        &context(),
    );
    assert!(plan.ops.is_empty());
    let result = plan.outcome.unwrap();
    assert_eq!(result.backup_path, "");
    assert!(!result.restart_recommended);
}

#[test]
fn login_of_another_account_is_not_kept_in_the_snapshot() {
    let plan = switch_account(
        "b::b",
        registry(Some("a")),
        Ok(chatgpt("b")),
        &vec![],
        Some(Ok(chatgpt("z"))),
        &context(),
    );
    assert_eq!(copies(&plan.ops).len(), 2);
    assert!(plan.outcome.is_ok());
    let plan = switch_account(
        "b::b",
        registry(Some("a")),
        Ok(chatgpt("b")),
        &vec![],
        Some(Err(AppError::Io("gone".to_string()))),
        &context(),
    );
    assert_eq!(copies(&plan.ops).len(), 1);
    assert_eq!(plan.outcome.unwrap_err().text(), "gone");
}

#[test]
fn switch_refuses_what_it_cannot_do() {
    let run = |key: &str, target: Result<AuthFile, AppError>, there: bool| {
        let current = if there { Some(Ok(chatgpt("a"))) } else { None };
        switch_account(key, registry(Some("a")), target, &vec![], current, &context())
    };
    let blank = run("  ", Ok(chatgpt("b")), true).outcome.unwrap_err();
    assert!(matches!(blank, AppError::InvalidInput(_)));
    assert_eq!(blank.text(), "Missing accountKey.");
    let unknown = run("x", Ok(chatgpt("b")), true).outcome.unwrap_err();
    assert_eq!(unknown.text(), "Codex account not found: x");
    let unread = run("b::b", Err(AppError::Json("bad".to_string())), true);
    assert_eq!(unread.outcome.unwrap_err().text(), "bad");
    let missing = run("b::b", Ok(chatgpt("b")), false).outcome.unwrap_err();
    assert_eq!(missing.text(), "Current Codex auth file does not exist: /codex/auth.json");
    let mismatch = run("b::b", Ok(chatgpt("z")), true).outcome.unwrap_err();
    assert_eq!(
        mismatch.text(),
        "Snapshot account mismatch: expected b::b, and no matching backup was found to repair it"
    );
}

#[test]
fn mismatched_snapshot_is_repaired_from_the_newest_backup() {
    let backup = |path: &str, login: Option<AuthFile>, modified_ns: i128| LoginBackup {
        path: path.to_string(),
        login,
        modified_ns,
    };
    let backups = vec![
        backup("/base/backups/1.json", Some(chatgpt("b")), 10),
        backup("/base/backups/2.json", Some(chatgpt("b")), 30),
        backup("/base/backups/3.json", Some(chatgpt("b")), 30),
        backup("/base/backups/4.json", Some(chatgpt("c")), 40),
        backup("/base/backups/5.json", Some(api_key("b")), 50),
        backup("/base/backups/6.txt", Some(chatgpt("b")), 60),
        backup("/base/backups/7.json", None, 70),
    ];
    assert_eq!(find_latest_backup_for_account(&backups, "b::b"), Some(1));
    assert_eq!(find_latest_backup_for_account(&backups, "d::d"), None);
    let plan = switch_account(
        "b::b",
        registry(Some("a")),
        Ok(chatgpt("z")),
        &backups,
        Some(Ok(chatgpt("a"))),
        &context(),
    );
    assert_eq!(
        copies(&plan.ops)[..2],
        [
            pair(
                "/base/snapshots/b.json",
                "/base/backups/20260803-053440.999__mismatched-snapshot__b__b.json",
            ),
            pair("/base/backups/2.json", "/base/snapshots/b.json"),
        ]
    );
    assert!(plan.outcome.is_ok());
}

#[test]
fn rollback_brings_the_previous_login_back() {
    let latest = || LatestSwitch {
        previous_account_key: Some("a::a".to_string()),
        active_account_key: "b::b".to_string(),
        backup_path: "/base/backups/old.json".to_string(),
        created_at: String::new(),
    };
    let plan = rollback_last_switch(latest(), Ok(chatgpt("a")), registry(Some("b")), &context());
    assert_eq!(
        copies(&plan.ops),
        vec![
            pair("/codex/auth.json", "/base/backups/20260803-053441.000__b__b.json"),
            pair("/base/backups/old.json", "/codex/auth.json"),
        ]
    );
    match &plan.ops[2] {
        AccountOp::WriteRegistry(registry) => {
            assert_eq!(registry.active_account_key.as_deref(), Some("a::a"));
            assert_eq!(registry.updated_at, 1000);
        }
        other => panic!("unexpected operation {other:?}"),
    }
    let result = plan.outcome.unwrap();
    assert_eq!(result.previous_account_key.as_deref(), Some("b::b"));
    assert_eq!(result.active_account_key, "a::a");
    assert!(result.restart_recommended);

    let unread = AppError::Io("no backup".to_string());
    let plan = rollback_last_switch(latest(), Err(unread), registry(Some("b")), &context());
    assert!(plan.ops.is_empty());
    assert_eq!(plan.outcome.unwrap_err().text(), "no backup");
}

#[test]
fn capture_puts_the_login_first() {
    let plan = capture_current(Some(" Work "), Ok(chatgpt("c")), registry(Some("a")), &context());
    assert_eq!(
        copies(&plan.ops),
        vec![pair("/codex/auth.json", "/base/snapshots/c__c.json")]
    );
    match &plan.ops[1] {
        AccountOp::WriteRegistry(registry) => {
            assert_eq!(registry.items.len(), 3);
            assert_eq!(registry.items[0].account_key, "c::c");
            assert_eq!(registry.items[0].profile_name, "Work");
            assert_eq!(registry.items[0].account_name, "Personal");
            assert_eq!(registry.active_account_key.as_deref(), Some("c::c"));
        }
        other => panic!("unexpected operation {other:?}"),
    }
    let summary = plan.outcome.unwrap();
    assert_eq!(summary.profile_name, "Work");
    assert!(summary.is_active);
    assert_eq!(summary.last_used_at, Some(1000));
}

#[test]
fn capture_of_a_known_account_keeps_what_is_known() {
    let plan = capture_current(None, Ok(chatgpt("b")), registry(Some("a")), &context());
    assert_eq!(
        copies(&plan.ops),
        vec![pair("/codex/auth.json", "/base/snapshots/b.json")]
    );
    match &plan.ops[1] {
        AccountOp::WriteRegistry(registry) => {
            assert_eq!(registry.items.len(), 2);
            assert_eq!(registry.items[0].account_key, "b::b");
            assert_eq!(registry.items[0].email, "abcdef@example.com");
            assert_eq!(registry.items[0].profile_name, "Current Codex Account");
            assert_eq!(registry.items[0].plan, "plus");
            assert_eq!(registry.items[0].extra.get_u64("kept"), Some(1));
            assert_eq!(registry.items[1].account_key, "a::a");
        }
        other => panic!("unexpected operation {other:?}"),
    }
    let failed = capture_current(
        None,
        Err(AppError::Io("unreadable".to_string())),
        registry(None),
        &context(),
    );
    assert!(failed.ops.is_empty());
    assert_eq!(failed.outcome.unwrap_err().text(), "unreadable");
}

#[test]
fn accounts_move_to_the_directory_of_codex() {
    let paths = account_paths("/codex/accounts", false, "/app/codex-accounts", true);
    assert_eq!(paths.registry_path, "/app/codex-accounts/registry.json");
    let paths = account_paths("/codex/accounts", true, "/app/codex-accounts", true);
    assert_eq!(paths.snapshots_dir, "/codex/accounts/snapshots");
    let paths = account_paths("/codex/accounts", false, "/app/codex-accounts", false);
    assert_eq!(paths.backups_dir, "/codex/accounts/backups");
    assert_eq!(paths.latest_switch_path, "/codex/accounts/latest-switch.json");
}

#[test]
fn restart_quits_and_opens() {
    let refused = restart_codex_app(false).unwrap_err();
    assert!(matches!(refused, AppError::Message(_)));
    assert_eq!(
        refused.text(),
        "Restarting Codex App is currently supported on macOS only."
    );
    let probe = restart_codex_app(true).unwrap();
    assert_eq!(probe, RestartStage::Probe);
    let open = restart_step(probe, RestartEvent::Running(false)).unwrap();
    assert_eq!(open, RestartStage::Open);
    let quit = restart_step(probe, RestartEvent::Running(true)).unwrap();
    assert_eq!(quit, RestartStage::Quit);
    assert_eq!(restart_step(quit, RestartEvent::Ended(true)).unwrap(), RestartStage::Open);
    assert_eq!(restart_step(open, RestartEvent::Ended(true)).unwrap(), RestartStage::Done);
    let texts = [
        restart_step(quit, RestartEvent::Ended(false)).unwrap_err(),
        restart_step(quit, RestartEvent::NotRun("x".to_string())).unwrap_err(),
        restart_step(open, RestartEvent::Ended(false)).unwrap_err(),
        restart_step(open, RestartEvent::NotRun("y".to_string())).unwrap_err(),
    ];
    assert_eq!(texts[0].text(), "Codex did not accept the quit request.");
    assert_eq!(texts[1].text(), "Failed to quit Codex: x");
    assert_eq!(texts[2].text(), "Codex did not accept the open request.");
    assert_eq!(texts[3].text(), "Failed to open Codex: y");
}

#[test]
fn rollback_undoes_a_switch_on_the_files() {
    let mut files: std::collections::HashMap<String, &str> = std::collections::HashMap::new();
    files.insert("/codex/auth.json".to_string(), "login of a");
    files.insert("/base/snapshots/a.json".to_string(), "older login of a");
    files.insert("/base/snapshots/b.json".to_string(), "login of b");
    let mut noted = None;
    let switch = switch_account(
        "b::b",
        registry(Some("a")),
        Ok(chatgpt("b")),
        &vec![],
        Some(Ok(chatgpt("a"))),
        &context(),
    );
    let mut after = None;
    for op in switch.ops {
        match op {
            AccountOp::Copy { from, to } => {
                let content = files[&from];
                files.insert(to, content);
            }
            AccountOp::WriteRegistry(registry) => after = Some(registry),
            AccountOp::WriteLatest(latest) => noted = Some(latest),
        }
    }
    assert_eq!(files["/codex/auth.json"], "login of b");
    assert_eq!(files["/base/snapshots/a.json"], "login of a");

    let later = SwitchContext { stamp: "20260803-060000.000".to_string(), ..context() };
    let rollback = rollback_last_switch(noted.unwrap(), Ok(chatgpt("a")), after.unwrap(), &later);
    for op in rollback.ops {
        match op {
            AccountOp::Copy { from, to } => {
                let content = files[&from];
                files.insert(to, content);
            }
            AccountOp::WriteRegistry(registry) => {
                assert_eq!(registry.active_account_key.as_deref(), Some("a::a"));
            }
            AccountOp::WriteLatest(_) => panic!("a rollback is not noted"),
        }
    }
    assert_eq!(files["/codex/auth.json"], "login of a");
    assert_eq!(files["/base/backups/20260803-060000.000__b__b.json"], "login of b");
}

#[test]
fn repaired_switch_uses_the_newest_backup_on_the_files() {
    let mut files: std::collections::HashMap<String, &str> = std::collections::HashMap::new();
    files.insert("/codex/auth.json".to_string(), "login of a");
    files.insert("/base/snapshots/a.json".to_string(), "older login of a");
    files.insert("/base/snapshots/b.json".to_string(), "login of c");
    files.insert("/base/backups/new.json".to_string(), "login of b");
    let backups = vec![LoginBackup {
        path: "/base/backups/new.json".to_string(),
        login: Some(chatgpt("b")),
        modified_ns: 2,
    }];
    let switch = switch_account(
        "b::b",
        registry(Some("a")),
        Ok(chatgpt("c")),
        &backups,
        Some(Ok(chatgpt("a"))),
        &context(),
    );
    let report = switch.outcome.unwrap();
    for (from, to) in copies(&switch.ops) {
        let content = files[&from];
        files.insert(to, content);
    }
    assert_eq!(files["/codex/auth.json"], "login of b");
    assert_eq!(files["/base/snapshots/a.json"], "login of a");
    assert_eq!(files["/base/snapshots/b.json"], "login of b");
    assert_eq!(files[&report.backup_path], "login of a");
    let aside = "/base/backups/20260803-053440.999__mismatched-snapshot__b__b.json";
    assert_eq!(files[aside], "login of c");
}

#[test]
fn backups_are_needed_for_a_repair_only() {
    let target = item("b", "");
    assert!(needs_repair(&target, &chatgpt("c")));
    assert!(!needs_repair(&target, &chatgpt("b")));
    assert!(!needs_repair(&target, &api_key("k")));
    let mut unusable = chatgpt("c");
    unusable.auth.tokens = None;
    assert!(!needs_repair(&target, &unusable));
    assert_eq!(check_account_key(" \t").unwrap_err().text(), "Missing accountKey.");
    assert!(check_account_key("b::b").is_ok());
}
