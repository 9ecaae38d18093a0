use cc_switch::backup::{
    lock_path, lock_step, maka_backup_dir, maka_workspace_dir, read_json_value, temp_name,
    unique_backup_filename, validate_backup_filename, validate_connections, validate_credentials,
    BackupCandidate, BackupMoment, LockAttempt, LockStep, MakaConfigBackupService,
    MakaLlmBackupEntry, MakaLlmBackupFile, MakaSources,
};
use cc_switch::error::AppError;
use cc_switch::json::{parse_json, Json};
use cc_switch::restore::{MakaLlmRestoreResult, RestoreEvent, RestoreStage};

const MANUAL_BACKUP: &str = "manual";
const SAFETY_BACKUP: &str = "safety";

/// Maka's two files and the directory of backups, in memory.
struct Disk {
    connections: Option<Vec<u8>>,
    credentials: Option<Vec<u8>>,
    backups: Vec<(String, MakaLlmBackupFile)>,
    /// The stage whose work fails.
    broken: Option<RestoreStage>,
    clock: u32,
}

fn copy(file: &MakaLlmBackupFile) -> MakaLlmBackupFile {
    MakaLlmBackupFile {
        schema_version: file.schema_version,
        backup_type: file.backup_type.clone(),
        created_at: file.created_at.clone(),
        llm_connections: file.llm_connections.clone(),
        credentials: file.credentials.clone(),
    }
}

impl Disk {
    fn new() -> Disk {
        Disk { connections: None, credentials: None, backups: Vec::new(), broken: None, clock: 0 }
    }

    fn write_fixture(&mut self, slug: &str, token: &str) {
        self.connections = Some(
            format!(
                "{{\"defaultSlug\": \"{slug}\", \"connections\": [{{\"slug\": \"{slug}\", \
                 \"name\": \"Fixture\", \"providerType\": \"openai-responses-compatible\", \
                 \"defaultModel\": \"gpt-test\", \"enabled\": true}}]}}"
            )
            .into_bytes(),
        );
        self.credentials = Some(
            format!("{{\"version\": 1, \"values\": {{\"{slug}:apiKey\": \"{token}\"}}}}")
                .into_bytes(),
        );
    }

    fn create_backup(&mut self, backup_type: &str) -> Result<MakaLlmBackupEntry, AppError> {
        self.clock += 1;
        let moment = BackupMoment {
            created_at: format!("2026-08-03T05:34:{:02}+00:00", self.clock),
            stamp: "20260803_053441".to_string(),
            unique: "0".to_string(),
        };
        let sources = MakaSources {
            connections_path: "/w/llm-connections.json".to_string(),
            connections: self.connections.clone(),
            credentials_path: "/w/credentials.json".to_string(),
            credentials: self.credentials.clone(),
        };
        let taken = self.backups.iter().map(|backup| backup.0.clone()).collect();
        let draft = MakaConfigBackupService::create_backup(&sources, backup_type, &moment, &taken)?;
        self.backups.push((draft.filename.clone(), copy(&draft.bundle)));
        Ok(draft.entry(99))
    }

    fn list_backups(&self) -> Vec<MakaLlmBackupEntry> {
        let candidates = self
            .backups
            .iter()
            .map(|backup| BackupCandidate {
                filename: backup.0.clone(),
                is_file: true,
                size_bytes: 99,
                file: Some(copy(&backup.1)),
            })
            .collect();
        MakaConfigBackupService::list_backups(&candidates)
    }

    fn read(bytes: &Option<Vec<u8>>) -> RestoreEvent {
        RestoreEvent::ReadBack { path: "/w/file".to_string(), bytes: bytes.clone().unwrap() }
    }

    fn restore_backup(&mut self, filename: &str) -> Result<MakaLlmRestoreResult, AppError> {
        let file = self
            .backups
            .iter()
            .find(|backup| backup.0 == filename)
            .map(|backup| Ok(copy(&backup.1)));
        let mut run = MakaConfigBackupService::restore_backup(filename, file)?;
        while run.stage != RestoreStage::Finished {
            let event = if self.broken == Some(run.stage) {
                RestoreEvent::Failed(AppError::Io(format!("{:?}", run.stage)))
            } else {
                match run.stage {
                    RestoreStage::ReadPrevious => RestoreEvent::Previous {
                        connections: self.connections.clone(),
                        credentials: self.credentials.clone(),
                    },
                    RestoreStage::SafetyBackup => match self.create_backup(SAFETY_BACKUP) {
                        Ok(entry) => RestoreEvent::SafetyBackup(entry.filename),
                        Err(error) => RestoreEvent::Failed(error),
                    },
                    RestoreStage::WriteCredentials => {
                        self.credentials = run.credentials_bytes.clone();
                        RestoreEvent::Written
                    }
                    RestoreStage::WriteConnections => {
                        self.connections = Some(run.connections_bytes.clone());
                        RestoreEvent::Written
                    }
                    RestoreStage::VerifyConnections => Disk::read(&self.connections),
                    RestoreStage::VerifyCredentials => {
                        if run.credentials.is_some() {
                            Disk::read(&self.credentials)
                        } else {
                            RestoreEvent::CredentialsThere(self.credentials.is_some())
                        }
                    }
                    RestoreStage::UndoCredentials => {
                        self.credentials = run.previous_credentials.clone();
                        RestoreEvent::Written
                    }
                    RestoreStage::UndoConnections => {
                        self.connections = run.previous_connections.clone();
                        RestoreEvent::Written
                    }
                    RestoreStage::Finished => unreachable!(),
                }
            };
            run = run.advance(event);
        }
        run.outcome()
    }

    fn connections(&self) -> Json {
        read_json_value("/w/llm-connections.json", self.connections.as_ref().unwrap()).unwrap()
    }

    fn credentials(&self) -> Json {
        read_json_value("/w/credentials.json", self.credentials.as_ref().unwrap()).unwrap()
    }
}

#[test]
fn creates_metadata_only_backup_with_protected_permissions() {
    let mut disk = Disk::new();
    disk.write_fixture("relay", "secret-one");

    let entry = disk.create_backup(MANUAL_BACKUP).unwrap();
    assert_eq!(entry.connection_count, 1);
    assert_eq!(entry.credential_count, 1);
    assert!(entry.includes_credentials);
    assert_eq!(entry.backup_type, MANUAL_BACKUP);

    let listed = disk.list_backups();
    assert_eq!(listed.len(), 1);
    assert_eq!(listed[0].filename, entry.filename);
}

#[test]
fn restore_replaces_connections_and_credentials_and_creates_safety_backup() {
    let mut disk = Disk::new();
    disk.write_fixture("before", "secret-before");
    let target = disk.create_backup(MANUAL_BACKUP).unwrap();

    disk.write_fixture("after", "secret-after");
    let result = disk.restore_backup(&target.filename).unwrap();
    assert_eq!(result.connection_count, 1);
    assert_eq!(result.credential_count, 1);
    assert!(result.safety_backup_filename.is_some());

    assert_eq!(disk.connections().get_text("defaultSlug"), Some("before"));
    let credentials = disk.credentials();
    let values = credentials.get("values").unwrap();
    assert_eq!(values.get_text("before:apiKey"), Some("secret-before"));

    let backups = disk.list_backups();
    assert_eq!(backups.len(), 2);
    assert!(backups.iter().any(|entry| entry.backup_type == SAFETY_BACKUP));
}

#[test]
fn restore_without_credentials_removes_current_credentials_and_keeps_safety_copy() {
    let mut disk = Disk::new();
    disk.write_fixture("without-creds", "temporary-secret");
    disk.credentials = None;
    let target = disk.create_backup(MANUAL_BACKUP).unwrap();
    assert!(!target.includes_credentials);

    disk.write_fixture("current", "secret-that-must-not-survive");
    let result = disk.restore_backup(&target.filename).unwrap();

    assert!(disk.credentials.is_none());
    let safety_filename = result.safety_backup_filename.expect("safety backup");
    let safety = disk.backups.iter().find(|backup| backup.0 == safety_filename).unwrap();
    assert_eq!(
        safety.1.credentials.as_ref().unwrap()["values"]["current:apiKey"],
        "secret-that-must-not-survive"
    );
}

#[test]
fn restore_fails_closed_when_credentials_exist_without_connections() {
    let mut disk = Disk::new();
    disk.write_fixture("target", "temporary-secret");
    disk.credentials = None;
    let target = disk.create_backup(MANUAL_BACKUP).unwrap();

    disk.connections = None;
    disk.credentials =
        Some(b"{\"version\": 1, \"values\": {\"orphan:apiKey\": \"must-survive\"}}".to_vec());

    let error = disk
        .restore_backup(&target.filename)
        .expect_err("restore must not delete credentials without a safety backup");
    assert!(error.text().contains("无法创建安全备份"));
    let credentials = disk.credentials();
    let values = credentials.get("values").unwrap();
    assert_eq!(values.get_text("orphan:apiKey"), Some("must-survive"));
    assert!(disk.connections.is_none());
}

#[test]
fn rejects_path_traversal_and_invalid_backup_payloads() {
    assert!(validate_backup_filename("../credentials.json").is_err());
    assert!(validate_connections(&parse_json("{\"connections\": {}}").unwrap()).is_err());
    assert!(validate_credentials(
        &parse_json("{\"version\": 1, \"values\": {\"x\": 1}}").unwrap()
    )
    .is_err());
}

#[test]
fn credential_lock_fails_closed_while_another_writer_holds_it() {
    let lock = lock_path("/w/credentials.json");
    assert_eq!(lock, "/w/credentials.json.lock");
    let first = lock_step(&lock, LockAttempt::Created, false).expect("acquire first lock");
    assert_eq!(first, LockStep::Acquired);

    assert_eq!(
        lock_step(&lock, LockAttempt::AlreadyExists, false).unwrap(),
        LockStep::TryAgain
    );
    let error = lock_step(&lock, LockAttempt::AlreadyExists, true)
        .err()
        .expect("second writer must not steal lock");
    assert!(error.text().contains("Maka 正在更新凭据"));
    assert!(matches!(error, AppError::Lock(_)));
    let error = lock_step(&lock, LockAttempt::Failed(AppError::Io("x".to_string())), true);
    assert_eq!(error.unwrap_err().text(), "x");

    let again = lock_step(&lock, LockAttempt::Created, true);
    assert_eq!(again.expect("lock should be reusable after release"), LockStep::Acquired);
}

#[test]
fn failed_restore_leaves_both_files_as_they_were() {
    for stage in [
        RestoreStage::SafetyBackup,
        RestoreStage::WriteCredentials,
        RestoreStage::WriteConnections,
        RestoreStage::VerifyConnections,
        RestoreStage::VerifyCredentials,
    ] {
        let mut disk = Disk::new();
        disk.write_fixture("before", "one");
        let target = disk.create_backup(MANUAL_BACKUP).unwrap();
        disk.write_fixture("after", "two");
        let files = (disk.connections.clone(), disk.credentials.clone());
        disk.broken = Some(stage);
        let error = disk.restore_backup(&target.filename).unwrap_err();
        assert_eq!(error.text(), format!("{stage:?}"));
        assert_eq!((disk.connections, disk.credentials), files);
    }
}

#[test]
fn failed_undo_is_reported() {
    let mut disk = Disk::new();
    disk.write_fixture("before", "one");
    let target = disk.create_backup(MANUAL_BACKUP).unwrap();
    let file = copy(&disk.backups[0].1);
    let mut run =
        MakaConfigBackupService::restore_backup(&target.filename, Some(Ok(file))).unwrap();
    let failed = |text: &str| RestoreEvent::Failed(AppError::Io(text.to_string()));
    run = run.advance(RestoreEvent::Previous { connections: None, credentials: None });
    run = run.advance(failed("full"));
    run = run.advance(failed("first"));
    run = run.advance(failed("second"));
    let error = run.outcome().unwrap_err();
    assert_eq!(error.text(), "Maka LLM 配置恢复失败: full；自动回滚也失败: first");
}

#[test]
fn restored_files_that_differ_are_undone() {
    let run = || {
        let mut disk = Disk::new();
        disk.write_fixture("before", "one");
        let target = disk.create_backup(MANUAL_BACKUP).unwrap();
        let file = copy(&disk.backups[0].1);
        let run = MakaConfigBackupService::restore_backup(&target.filename, Some(Ok(file)));
        run.unwrap()
            .advance(RestoreEvent::Previous { connections: None, credentials: None })
            .advance(RestoreEvent::Written)
            .advance(RestoreEvent::Written)
    };
    let read = |text: &str| RestoreEvent::ReadBack {
        path: "/w/file".to_string(),
        bytes: text.as_bytes().to_vec(),
    };
    let other = run().advance(read("null"));
    assert_eq!(other.stage, RestoreStage::UndoCredentials);
    assert_eq!(other.error.unwrap().text(), "Maka LLM 连接配置恢复后校验不一致");
    let other = run().advance(read("{"));
    assert!(other.error.unwrap().text().starts_with("/w/file: EOF"));
    let connections = "{\"connections\": [{\"enabled\": true, \"defaultModel\": \"gpt-test\", \
                       \"name\": \"Fixture\", \"slug\": \"before\", \
                       \"providerType\": \"openai-responses-compatible\"}], \
                       \"defaultSlug\": \"before\"}";
    let other = run().advance(read(connections)).advance(read("null"));
    assert_eq!(other.error.unwrap().text(), "Maka LLM 凭据恢复后校验不一致");
}

#[test]
fn documents_are_compared_by_what_they_hold() {
    let same = |a: &str, b: &str| {
        let mut disk = Disk::new();
        disk.connections = Some(
            format!("{{\"connections\": [], \"x\": {a}}}").into_bytes(),
        );
        let target = disk.create_backup(MANUAL_BACKUP).unwrap();
        let file = copy(&disk.backups[0].1);
        let run = MakaConfigBackupService::restore_backup(&target.filename, Some(Ok(file)))
            .unwrap()
            .advance(RestoreEvent::Previous { connections: None, credentials: None })
            .advance(RestoreEvent::Written)
            .advance(RestoreEvent::Written);
        let found = format!("{{\"x\": {b}, \"connections\": []}}");
        let run = run.compared(Ok(serde_json::from_str(&found).unwrap()));
        run.stage == RestoreStage::VerifyCredentials
    };
    assert!(same("{\"a\": 1, \"b\": [2]}", "{\"b\": [2], \"a\": 1}"));
    assert!(!same("{\"a\": 1}", "{\"a\": 1.0}"));
    assert!(!same("{\"a\": 1}", "{\"a\": 1, \"b\": 1}"));
    assert!(!same("[1, 2]", "[2, 1]"));
    assert!(same("0.0", "-0.0"));
}

#[test]
fn safety_backup_undoes_a_restore() {
    let mut disk = Disk::new();
    disk.write_fixture("before", "one");
    let target = disk.create_backup(MANUAL_BACKUP).unwrap();
    disk.connections = Some(b"{\"connections\": [], \"defaultSlug\": null}".to_vec());
    disk.credentials = None;
    let now = disk.connections();

    let report = disk.restore_backup(&target.filename).unwrap();
    assert_eq!((report.connection_count, report.credential_count), (1, 1));
    assert_eq!(disk.backups.len(), 2);
    assert_ne!(report.safety_backup_filename.as_deref(), Some(target.filename.as_str()));
    assert_eq!(disk.connections().text_of_either("defaultSlug", "x"), Some("before"));
    assert!(disk.credentials.is_some());

    disk.restore_backup(report.safety_backup_filename.as_deref().unwrap()).unwrap();
    assert!(disk.credentials.is_none());
    assert_eq!(format!("{:?}", disk.connections()), format!("{:?}", now));
}

#[test]
fn bytes_of_a_restore_are_indented() {
    let mut disk = Disk::new();
    disk.connections = Some(b"{\"connections\":[]}".to_vec());
    let target = disk.create_backup(MANUAL_BACKUP).unwrap();
    disk.connections = None;
    disk.restore_backup(&target.filename).unwrap();
    assert_eq!(disk.connections.unwrap(), b"{\n  \"connections\": []\n}".to_vec());
}

#[test]
fn backup_needs_files_that_maka_could_use() {
    let error = |connections: Option<&str>, credentials: Option<&str>| {
        let mut disk = Disk::new();
        disk.connections = connections.map(|text| text.as_bytes().to_vec());
        disk.credentials = credentials.map(|text| text.as_bytes().to_vec());
        disk.create_backup(MANUAL_BACKUP).unwrap_err().text().to_string()
    };
    let good = Some("{\"connections\": []}");
    assert_eq!(error(None, None), "未找到 Maka LLM 配置: /w/llm-connections.json");
    assert!(error(Some("{"), None).starts_with("/w/llm-connections.json: EOF"));
    assert!(error(good, Some("}")).starts_with("/w/credentials.json: "));
    assert_eq!(error(Some("[]"), None), "Maka LLM 连接配置必须是对象");
    assert_eq!(error(Some("{}"), None), "Maka LLM 连接配置缺少 connections 数组");
    assert_eq!(
        error(Some("{\"connections\": [], \"defaultSlug\": 1}"), None),
        "Maka LLM defaultSlug 必须是字符串或 null"
    );
    assert_eq!(error(Some("{\"connections\": [1]}"), None), "Maka LLM 连接条目必须是对象");
    assert_eq!(error(Some("{\"connections\": [{}]}"), None), "Maka LLM 连接条目缺少 slug");
    assert_eq!(
        error(Some("{\"connections\": [{\"slug\": \"s\", \"providerType\": \"\"}]}"), None),
        "Maka LLM 连接条目缺少 providerType"
    );
    assert_eq!(error(good, Some("1")), "Maka credentials.json 必须是对象");
    assert_eq!(error(good, Some("{}")), "Maka credentials.json 缺少有效 version");
    assert_eq!(error(good, Some("{\"version\": 1}")), "Maka credentials.json 缺少 values 对象");
    assert_eq!(
        error(good, Some("{\"version\": 1.5, \"values\": {\"x\": null}}")),
        "Maka credentials.json 包含非字符串凭据"
    );
}

#[test]
fn invalid_backups_are_refused_and_not_listed() {
    let backup = |schema_version: u32, backup_type: &str| MakaLlmBackupFile {
        schema_version,
        backup_type: backup_type.to_string(),
        created_at: "t".to_string(),
        llm_connections: serde_json::from_str("{\"connections\": []}").unwrap(),
        credentials: None,
    };
    let restore = |file: Option<Result<MakaLlmBackupFile, AppError>>| {
        let run = MakaConfigBackupService::restore_backup("maka_llm_x.json", file);
        run.err().unwrap().text().to_string()
    };
    assert_eq!(restore(None), "Maka LLM 备份不存在: maka_llm_x.json");
    assert_eq!(restore(Some(Err(AppError::Io("io".to_string())))), "io");
    assert_eq!(restore(Some(Ok(backup(2, "manual")))), "不支持的 Maka LLM 备份版本: 2");
    assert_eq!(restore(Some(Ok(backup(1, "other")))), "Maka LLM 备份类型无效");
    let named = MakaConfigBackupService::restore_backup("x.json", None).err().unwrap();
    assert_eq!(named.text(), "Maka LLM 备份文件名无效");

    let candidate = |filename: &str, is_file: bool, file: Option<MakaLlmBackupFile>| {
        BackupCandidate { filename: filename.to_string(), is_file, size_bytes: 1, file }
    };
    let mut newer = backup(1, "safety");
    newer.created_at = "u".to_string();
    let listed = MakaConfigBackupService::list_backups(&vec![
        candidate("maka_llm_1.json", true, Some(backup(1, "manual"))),
        candidate("maka_llm_2.json", true, Some(newer)),
        candidate("maka_llm_3.json", true, Some(backup(1, "manual"))),
        candidate("maka_llm_4.json", true, Some(backup(9, "manual"))),
        candidate("maka_llm_5.json", false, Some(backup(1, "manual"))),
        candidate("maka_llm_6.json", true, None),
        candidate("other.json", true, Some(backup(1, "manual"))),
    ]);
    let names: Vec<&str> = listed.iter().map(|entry| entry.filename.as_str()).collect();
    assert_eq!(names, vec!["maka_llm_2.json", "maka_llm_1.json", "maka_llm_3.json"]);

    assert_eq!(listed.len(), 3);

    assert!(MakaConfigBackupService::delete_backup("maka_llm_1.json", true).is_ok());
    let gone = MakaConfigBackupService::delete_backup("maka_llm_1.json", false).unwrap_err();
    assert_eq!(gone.text(), "Maka LLM 备份不存在: maka_llm_1.json");
    assert!(MakaConfigBackupService::delete_backup("maka_llm_/.json", true).is_err());
}

#[test]
fn new_backup_takes_a_free_name() {
    let name = |taken: Vec<String>, kind: &str| unique_backup_filename(&taken, kind, "T", "uuid");
    let base = "maka_llm_T".to_string();
    assert_eq!(name(vec![], "manual"), "maka_llm_T.json");
    assert_eq!(name(vec![], "safety"), "maka_llm_T_safety.json");
    assert_eq!(name(vec![format!("{base}.json")], "manual"), "maka_llm_T_1.json");
    let mut taken = vec![format!("{base}.json")];
    for n in 1..=9999u32 {
        taken.push(format!("{base}_{n}.json"));
    }
    assert_eq!(name(taken, "manual"), "maka_llm_T_uuid.json");
    assert!(validate_backup_filename("maka_llm_T_uuid.json").is_ok());
    for bad in ["maka_llm_..json", "maka_llm_a\\b.json", "maka_llm_\0.json", "maka_llm_a.txt"] {
        assert!(validate_backup_filename(bad).is_err());
    }
    assert_eq!(temp_name("a.json", "u"), ".a.json.u.tmp");
}

#[test]
fn directories_of_maka() {
    assert_eq!(maka_workspace_dir(Some("/data")).unwrap(), "/data/Maka/workspaces/default");
    assert_eq!(maka_workspace_dir(None).unwrap_err().text(), "无法定位 Maka 配置目录");
    assert_eq!(maka_backup_dir("/app"), "/app/backups/maka-llm");
}
