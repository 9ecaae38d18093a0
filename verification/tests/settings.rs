use cc_switch::dsh::{
    drop_provider, first_model_id, get_default_model, get_dsh_dir, get_dsh_settings_path,
    get_provider, get_providers, remove_provider, replace_section, set_default_model, set_provider,
    upsert_provider,
};
use cc_switch::dsh_backup::{settings_backup_name, stale_backups, SettingsBackup};
use cc_switch::json::{parse_json, Json};
use cc_switch::sections::{is_top_level_key_line, remove_all_sections, replace_section_text};

fn value(text: &str) -> serde_json::Value {
    serde_json::from_str(text).unwrap()
}

fn member<'a>(providers: &'a [(String, Json)], id: &str) -> &'a Json {
    &providers.iter().find(|entry| entry.0 == id).unwrap().1
}

#[test]
fn set_provider_preserves_unrelated_sections_and_existing_fields() {
    let raw = "locale:\n  preference: zh\nllm-pi-ai:\n  providers:\n    keep:\n      baseURL: http://keep/v1\nagent-default-model:\n  provider: keep\n  model: m1\n";
    let raw = set_provider(
        raw,
        "keep",
        &value("{\"displayName\": \"Keep\", \"baseURL\": \"http://keep/v1\", \"apiKeyEnv\": \"KEEP_KEY\"}"),
    )
    .unwrap();
    let raw = set_provider(
        &raw,
        "new",
        &value("{\"baseURL\": \"http://new/v1\", \"models\": [{\"id\": \"n1\"}]}"),
    )
    .unwrap();

    assert!(raw.contains("locale:"));
    assert!(raw.contains("preference: zh"));
    assert!(raw.contains("agent-default-model:"));

    let providers = get_providers(&raw).unwrap();
    assert_eq!(providers.len(), 2);
    assert_eq!(member(&providers, "keep").get_text("apiKeyEnv"), Some("KEEP_KEY"));
    assert_eq!(member(&providers, "keep").get_text("displayName"), Some("Keep"));
    assert_eq!(member(&providers, "new").get_text("baseURL"), Some("http://new/v1"));
}

#[test]
fn remove_provider_drops_only_the_target() {
    let raw = "llm-pi-ai:\n  providers:\n    a:\n      baseURL: http://a/v1\n    b:\n      baseURL: http://b/v1\n";
    let raw = remove_provider(raw, "a").unwrap().unwrap();
    assert!(remove_provider(&raw, "missing").unwrap().is_none());
    let providers = get_providers(&raw).unwrap();
    assert_eq!(providers.len(), 1);
    assert_eq!(providers[0].0, "b");
}

#[test]
fn set_default_model_updates_active_provider() {
    let raw = "llm-pi-ai:\n  providers: {}\nagent-default-model:\n  provider: old\n  model: old-model\n  reasoningEffort: high\n";
    let raw = set_default_model(raw, "new", Some("new-model")).unwrap();
    let (provider, model) = get_default_model(&raw).unwrap().unwrap();
    assert_eq!(provider, "new");
    assert_eq!(model, "new-model");
    assert!(raw.contains("reasoningEffort: high"));
}

#[test]
fn set_provider_keeps_fields_that_the_payload_omits() {
    let raw = "llm-pi-ai:\n  other: 1\n  providers:\n    p:\n      baseURL: http://old\n      extra: kept\n";
    let raw = set_provider(raw, "p", &value("{\"baseURL\": \"http://new\"}")).unwrap();
    assert_eq!(
        raw,
        "llm-pi-ai:\n  other: 1\n  providers:\n    p:\n      baseURL: http://new\n      extra: kept\n"
    );
    let provider = get_provider(&raw, "p").unwrap().unwrap();
    assert_eq!(provider.get_text("extra"), Some("kept"));
    assert!(get_provider(&raw, "q").unwrap().is_none());
}

#[test]
fn settings_begin_with_a_blank_text() {
    assert!(get_providers("  \n").unwrap().is_empty());
    assert!(get_default_model("").unwrap().is_none());
    let raw = set_provider("", "p", &value("{\"n\": 1}")).unwrap();
    assert_eq!(raw, "llm-pi-ai:\n  providers:\n    p:\n      n: 1\n");
    let raw = set_default_model(&raw, "p", Some("  ")).unwrap();
    assert_eq!(get_default_model(&raw).unwrap(), Some(("p".to_string(), String::new())));
    assert!(raw.starts_with("llm-pi-ai:\n  providers:\n    p:\n      n: 1\n"));
}

#[test]
fn other_sections_keep_their_bytes() {
    let raw = "# top\nlocale: \"zh\"   # odd spacing\nllm-pi-ai:\n  providers: {}\n\n# tail\nagent-default-model: {provider: x}\n";
    let changed = set_provider(raw, "p", &value("{}")).unwrap();
    assert!(changed.starts_with("# top\nlocale: \"zh\"   # odd spacing\nllm-pi-ai:\n"));
    assert!(changed.ends_with("agent-default-model: {provider: x}\n"));
    assert_eq!(replace_section_text("a: 1", "b", "b: 2\n"), "a: 1\nb: 2\n");
    assert_eq!(replace_section_text("b: 1\na: 3\nb: 4\n", "b", "b: 2\n"), "b: 2\na: 3\n");
    assert_eq!(remove_all_sections("b: 1\n x\na: 3\nb: 4\n", "b"), "a: 3\n");
    assert!(is_top_level_key_line("key:") && is_top_level_key_line("key: v"));
    assert!(!is_top_level_key_line("") && !is_top_level_key_line(" key: v"));
    assert!(!is_top_level_key_line("# key: v") && !is_top_level_key_line("- key: v"));
    assert!(!is_top_level_key_line("url:x") && !is_top_level_key_line("word"));
    assert!(is_top_level_key_line("\"a:b\": 1") && is_top_level_key_line("'a: b' : 1"));
    assert!(is_top_level_key_line("a:b: 1") && is_top_level_key_line("http://x:\r"));
    assert!(is_top_level_key_line("-a: 1") && !is_top_level_key_line("-"));
    assert!(is_top_level_key_line("? a") && is_top_level_key_line("?a: 1"));
}

fn yaml(text: &str) -> serde_yaml::Value {
    serde_yaml::from_str(text).unwrap()
}

#[test]
fn sections_with_colons_in_their_keys_are_kept() {
    let raw = "llm-pi-ai:\n  x: 1\n\"a:b\": 1\n";
    let changed = replace_section(raw, "llm-pi-ai", yaml("{x: 2}")).unwrap();
    assert_eq!(changed, "llm-pi-ai:\n  x: 2\n\"a:b\": 1\n");
    let raw = "llm-pi-ai:\n  x: 1\na:b: 1\n-c: 2\n? d\n: 3\n";
    let changed = replace_section(raw, "llm-pi-ai", yaml("{x: 2}")).unwrap();
    assert_eq!(changed, "llm-pi-ai:\n  x: 2\na:b: 1\n-c: 2\n? d\n: 3\n");
}

#[test]
fn section_is_found_however_its_key_is_written() {
    for key in ["llm-pi-ai:", "llm-pi-ai :", "\"llm-pi-ai\":", "'llm-pi-ai'\t:"] {
        let raw = format!("a: 1\n{key} {{providers: {{p: {{n: 1}}}}}}\nb: 2\n");
        let changed = set_provider(&raw, "q", &value("{\"n\": 2}")).unwrap();
        assert_eq!(get_providers(&changed).unwrap().len(), 2);
        assert!(changed.starts_with("a: 1\nllm-pi-ai:\n") && changed.ends_with("\nb: 2\n"));
    }
    assert_eq!(remove_all_sections("b-c: 1\n\"b\"x: 2\nb:1: 3\n", "b"), "b-c: 1\n\"b\"x: 2\nb:1: 3\n");
}

#[test]
fn removal_deletes_whole_sections() {
    let raw = "# top\nb: 1\n  x\na: 3\n- y\nb:\nc: 5\nb: 6";
    let rest = remove_all_sections(raw, "b");
    assert_eq!(rest, "# top\na: 3\n- y\nc: 5\n");
    assert_eq!(remove_all_sections(&rest, "b"), rest);
    assert_eq!(remove_all_sections("b: 1", "b"), "");
    assert_eq!(remove_all_sections(raw, "z"), raw);
}

#[test]
fn provider_is_merged_key_by_key() {
    let settings = yaml("llm-pi-ai: {providers: {p: {1: a, two: b, [3]: c, !t x: d}}}");
    let incoming = yaml("{0x1: new, 2: e, two: f}");
    let section = upsert_provider(settings, "p", Ok(incoming)).unwrap();
    assert_eq!(section, yaml("providers: {p: {1: new, 2: e, two: f, [3]: c, !t x: d}}"));
    let written = serde_yaml::to_string(&section).unwrap();
    let settings = yaml("llm-pi-ai: {providers: {p: !t {a: 1, b: 2}}}");
    let merged = upsert_provider(settings, "p", Ok(yaml("{b: 3}"))).unwrap();
    assert_eq!(merged, yaml("providers: {p: {b: 3, a: 1}}"));
    let order = ["1: new", "2: e", "two: f", "3"].map(|part| written.find(part).unwrap());
    assert!(order.windows(2).all(|pair| pair[0] < pair[1]));
}

#[test]
fn tags_stay_around_a_changed_mapping() {
    let settings = || yaml("llm-pi-ai: !s {providers: !t {p: {n: 1}, q: {n: 2}, r: {n: 3}}, z: 1}");
    let section = upsert_provider(settings(), "q", Ok(yaml("{m: 1}"))).unwrap();
    assert_eq!(section, yaml("!s {providers: !t {p: {n: 1}, q: {m: 1, n: 2}, r: {n: 3}}, z: 1}"));
    let section = drop_provider(settings(), "p").unwrap();
    assert_eq!(section, yaml("!s {providers: !t {r: {n: 3}, q: {n: 2}}, z: 1}"));
    let written = serde_yaml::to_string(&section).unwrap();
    assert!(written.find("r:").unwrap() < written.find("q:").unwrap());
    assert!(written.find("providers").unwrap() < written.find("z:").unwrap());
    assert!(drop_provider(settings(), "x").is_none());
}

#[test]
fn settings_of_the_wrong_shape_are_refused() {
    let error = |raw: &str| set_provider(raw, "p", &value("{}")).unwrap_err().text().to_string();
    assert_eq!(error("- a\n"), "DSH settings.yaml 顶层必须是映射");
    assert_eq!(error("llm-pi-ai: 1\n"), "DSH llm-pi-ai 配置必须是映射");
    assert_eq!(error("llm-pi-ai:\n  providers: []\n"), "DSH llm-pi-ai.providers 必须是映射");
    assert!(error("a: [\n").starts_with("DSH settings.yaml 解析失败: "));
    assert!(get_providers("a: [\n").is_err());
    assert!(get_default_model("a: [\n").is_err());
    assert!(remove_provider("a: [\n", "p").is_err());
    assert!(remove_provider("- a\n", "p").unwrap().is_none());
    let error = set_default_model("agent-default-model: 1\n", "p", None).unwrap_err();
    assert_eq!(error.text(), "DSH agent-default-model 必须是映射");
}

#[test]
fn first_model_is_found() {
    let first = |text: &str| first_model_id(&parse_json(text).unwrap());
    assert_eq!(first("{\"models\": [{\"id\": \" m1 \"}, {\"id\": \"m2\"}]}").as_deref(), Some("m1"));
    assert_eq!(first("{\"models\": [{\"id\": \"  \"}, {\"id\": \"m2\"}]}").as_deref(), Some("m2"));
    assert_eq!(first("{\"models\": [{}, {\"id\": 1}, {\"id\": \"m3\"}]}").as_deref(), Some("m3"));
    assert_eq!(first("{\"models\": [{\"id\": \"  \"}, {\"id\": \"\"}]}"), None);
    assert_eq!(first("{\"models\": []}"), None);
    assert_eq!(first("{\"models\": [{\"id\": 1}]}"), None);
    assert_eq!(first("{}"), None);
}

#[test]
fn settings_directory_is_chosen_in_order() {
    assert_eq!(get_dsh_dir(Some("/mine"), Some("/env"), "/home"), "/mine");
    assert_eq!(get_dsh_dir(None, Some(" /env "), "/home"), "/env");
    assert_eq!(get_dsh_dir(None, Some("  "), "/home"), "/home/.dsh");
    assert_eq!(get_dsh_dir(None, None, "/home"), "/home/.dsh");
    assert_eq!(get_dsh_settings_path("/home/.dsh"), "/home/.dsh/settings.yaml");
}

#[test]
fn oldest_backups_are_stale() {
    let backup = |path: &str, modified_ns: Option<i128>| SettingsBackup {
        path: path.to_string(),
        modified_ns,
    };
    let files = vec![
        backup("/b/c.yaml", Some(30)),
        backup("/b/a.yaml", Some(10)),
        backup("/b/note.txt", Some(1)),
        backup("/b/x.yml", None),
        backup("/b/d.yaml", Some(30)),
    ];
    assert_eq!(stale_backups(&files, 4), Vec::<String>::new());
    assert_eq!(stale_backups(&files, 2), vec!["/b/x.yml", "/b/a.yaml"]);
    assert_eq!(stale_backups(&files, 1), vec!["/b/x.yml", "/b/a.yaml", "/b/c.yaml"]);
    assert_eq!(
        settings_backup_name("a: 1", "20260803_053441").as_deref(),
        Some("settings_20260803_053441.yaml")
    );
    assert_eq!(settings_backup_name(" \n", "20260803_053441"), None);
}
