use cc_switch::paths::DirEntry;
use cc_switch::state_db::{
    codex_sqlite_home, codex_state_db_paths, parse_u32, resolve_user_path, state_version, StateDir,
};

fn dir(path: &str, names: &[&str]) -> StateDir {
    StateDir {
        path: path.to_string(),
        entries: names
            .iter()
            .map(|name| DirEntry { name: name.to_string(), is_file: true })
            .collect(),
    }
}

#[test]
fn includes_config_sqlite_home() {
    let config_text = format!("sqlite_home = '{}'\n", "/tmp/codex/sqlite-home");
    let sqlite_home = codex_sqlite_home(&config_text, None, "/home/user").unwrap();
    assert_eq!(sqlite_home, "/tmp/codex/sqlite-home");

    let paths = codex_state_db_paths(&dir("/tmp/codex", &[]), Some(&dir(&sqlite_home, &[])));

    assert_eq!(
        paths,
        vec![
            "/tmp/codex/state_5.sqlite".to_string(),
            "/tmp/codex/sqlite-home/state_5.sqlite".to_string(),
        ]
    );
}

#[test]
fn prefers_highest_discovered_state_db_version() {
    let config = dir("/tmp/codex", &["state_5.sqlite", "state_6.sqlite", "state_latest.sqlite"]);
    assert_eq!(codex_sqlite_home("", None, "/home/user"), None);

    let paths = codex_state_db_paths(&config, None);

    assert_eq!(paths, vec!["/tmp/codex/state_6.sqlite".to_string()]);
}

#[test]
fn configuration_comes_before_the_environment() {
    let home = |text: &str, environment: Option<&str>| codex_sqlite_home(text, environment, "/home/u");
    assert_eq!(home("sqlite_home = \" ~/db \"", Some("/env")).as_deref(), Some("/home/u/db"));
    assert_eq!(home("sqlite_home = \"  \"", Some("/env")).as_deref(), Some("/env"));
    assert_eq!(home("sqlite_home = 1", Some(" ~ ")).as_deref(), Some("/home/u"));
    assert_eq!(home("not toml [", Some("~\\db")).as_deref(), Some("/home/u/db"));
    assert_eq!(home("", Some("  ")), None);
    assert_eq!(resolve_user_path("rel", "/home/u"), "rel");
}

#[test]
fn versions_are_decimal_numbers() {
    assert_eq!(state_version("state_12.sqlite"), Some(12));
    assert_eq!(state_version("state_+7.sqlite"), Some(7));
    assert_eq!(state_version("state_.sqlite"), None);
    assert_eq!(state_version("state_4294967296.sqlite"), None);
    assert_eq!(state_version("state_1.sqlite-wal"), None);
    assert_eq!(parse_u32("4294967295"), Some(4294967295));
    assert_eq!(parse_u32("-1"), None);
    assert_eq!(parse_u32("1 "), None);
}

#[test]
fn one_place_is_named_once() {
    let config = dir("/tmp/codex", &["state_7.sqlite"]);
    let paths = codex_state_db_paths(&config, Some(&dir("/tmp//codex/.", &["state_7.sqlite"])));
    assert_eq!(paths, vec!["/tmp/codex/state_7.sqlite".to_string()]);
    let mut folders = dir("/tmp/codex", &["state_9.sqlite"]);
    folders.entries[0].is_file = false;
    assert_eq!(codex_state_db_paths(&folders, None), vec!["/tmp/codex/state_5.sqlite".to_string()]);
}
