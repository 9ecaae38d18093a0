//! Restoring a backup of Maka's configuration.
//!
//! A restore is a run of stages. Each stage asks the caller for one thing on
//! the file system; what came of it leads to the next. Whatever fails once
//! files are touched, both files are put back.

use vstd::prelude::*;
use crate::backup;
use crate::backup::{BackupFacts, MakaConfigBackupService, MakaLlmBackupFile};
use crate::error::{AppError, Fault};
use crate::json;
use crate::json::JsonTree;
use crate::text;

verus! {

/// What a restore reports.
#[derive(Debug)]
pub struct MakaLlmRestoreResult {
    pub safety_backup_filename: Option<String>,
    pub connection_count: usize,
    pub credential_count: usize,
    pub includes_credentials: bool,
}

/// What a restore asks for next.
#[derive(Clone, Copy, Debug, PartialEq, Eq, Structural)]
pub enum RestoreStage {
    /// Read both files as they are.
    ReadPrevious,
    /// Make a backup of them.
    SafetyBackup,
    /// Write the credentials of the backup, or remove those that are there.
    WriteCredentials,
    /// Write the connections of the backup.
    WriteConnections,
    /// Read the connections back.
    VerifyConnections,
    /// Read the credentials back, or see that there are none.
    VerifyCredentials,
    /// Put the credentials back as they were.
    UndoCredentials,
    /// Put the connections back as they were.
    UndoConnections,
    Finished,
}

/// What came of it.
pub enum RestoreEvent {
    /// The bytes of both files as far as they exist.
    Previous { connections: Option<Vec<u8>>, credentials: Option<Vec<u8>> },
    /// The name of the backup that was made.
    SafetyBackup(String),
    /// A file was written or removed.
    Written,
    /// The bytes of the file at a path.
    ReadBack { path: String, bytes: Vec<u8> },
    /// Whether there are credentials.
    CredentialsThere(bool),
    Failed(AppError),
}

/// What came of a stage.
pub enum EventFacts {
    Previous { connections: Option<Seq<u8>>, credentials: Option<Seq<u8>> },
    SafetyBackup(Seq<char>),
    Written,
    ReadBack { path: Seq<char>, bytes: Seq<u8> },
    CredentialsThere(bool),
    Failed(Fault),
}

/// The bytes of a file, if it exists.
pub open spec fn opt_bytes(bytes: Option<Vec<u8>>) -> Option<Seq<u8>> {
    match bytes {
        Some(b) => Some(b@),
        None => None,
    }
}

impl View for RestoreEvent {
    type V = EventFacts;

    open spec fn view(&self) -> EventFacts {
        match self {
            RestoreEvent::Previous { connections, credentials } => EventFacts::Previous {
                connections: opt_bytes(*connections),
                credentials: opt_bytes(*credentials),
            },
            RestoreEvent::SafetyBackup(name) => EventFacts::SafetyBackup(name@),
            RestoreEvent::Written => EventFacts::Written,
            RestoreEvent::ReadBack { path, bytes } => EventFacts::ReadBack {
                path: path@,
                bytes: bytes@,
            },
            RestoreEvent::CredentialsThere(there) => EventFacts::CredentialsThere(*there),
            RestoreEvent::Failed(error) => EventFacts::Failed(error@),
        }
    }
}

/// A restore that is going on.
pub struct RestoreRun {
    pub stage: RestoreStage,
    pub connection_count: usize,
    pub credential_count: usize,
    /// What the backup holds.
    pub connections: serde_json::Value,
    pub credentials: Option<serde_json::Value>,
    /// The bytes that are to be written.
    pub connections_bytes: Vec<u8>,
    pub credentials_bytes: Option<Vec<u8>>,
    /// The bytes that were there.
    pub previous_connections: Option<Vec<u8>>,
    pub previous_credentials: Option<Vec<u8>>,
    pub safety_backup: Option<String>,
    /// What went wrong.
    pub error: Option<AppError>,
    /// What went wrong while files were put back.
    pub undo_error: Option<AppError>,
}

/// A restore that is going on.
pub struct RunFacts {
    pub stage: RestoreStage,
    pub connection_count: int,
    pub credential_count: int,
    pub connections: JsonTree,
    pub credentials: Option<JsonTree>,
    pub connections_bytes: Seq<u8>,
    pub credentials_bytes: Option<Seq<u8>>,
    pub previous_connections: Option<Seq<u8>>,
    pub previous_credentials: Option<Seq<u8>>,
    pub safety_backup: Option<Seq<char>>,
    pub error: Option<Fault>,
    pub undo_error: Option<Fault>,
}

/// A failure, if there is one.
pub open spec fn opt_fault(error: Option<AppError>) -> Option<Fault> {
    match error {
        Some(e) => Some(e@),
        None => None,
    }
}

impl View for RestoreRun {
    type V = RunFacts;

    open spec fn view(&self) -> RunFacts {
        RunFacts {
            stage: self.stage,
            connection_count: self.connection_count as int,
            credential_count: self.credential_count as int,
            connections: json::json_content(self.connections),
            credentials: backup::opt_content(self.credentials),
            connections_bytes: self.connections_bytes@,
            credentials_bytes: opt_bytes(self.credentials_bytes),
            previous_connections: opt_bytes(self.previous_connections),
            previous_credentials: opt_bytes(self.previous_credentials),
            safety_backup: text::opt_text(self.safety_backup),
            error: opt_fault(self.error),
            undo_error: opt_fault(self.undo_error),
        }
    }
}

impl RunFacts {
    /// The run at another stage.
    pub open spec fn at(self, stage: RestoreStage) -> RunFacts {
        RunFacts { stage, ..self }
    }

    /// The run that is given up before a file was touched.
    pub open spec fn refused(self, fault: Fault) -> RunFacts {
        RunFacts { stage: RestoreStage::Finished, error: Some(fault), ..self }
    }

    /// The run that is given up and puts the files back.
    pub open spec fn undone(self, fault: Fault) -> RunFacts {
        RunFacts { stage: RestoreStage::UndoCredentials, error: Some(fault), ..self }
    }

    /// The run that is ready to write what `connections` and `credentials`
    /// became as bytes.
    pub open spec fn ready(
        self,
        connections: Result<Seq<u8>, Seq<char>>,
        credentials: Option<Result<Seq<u8>, Seq<char>>>,
    ) -> RunFacts {
        match (connections, credentials) {
            (Err(error), _) => self.refused(Fault::Json(error)),
            (Ok(_), Some(Err(error))) => self.refused(Fault::Json(error)),
            (Ok(bytes), Some(Ok(secrets))) => RunFacts {
                stage: RestoreStage::WriteCredentials,
                connections_bytes: bytes,
                credentials_bytes: Some(secrets),
                ..self
            },
            (Ok(bytes), None) => RunFacts {
                stage: RestoreStage::WriteCredentials,
                connections_bytes: bytes,
                credentials_bytes: None,
                ..self
            },
        }
    }

    /// The run after a document was read back: it goes on where the document is
    /// the one that the stage expects.
    pub open spec fn compared(self, document: Result<JsonTree, Fault>) -> RunFacts {
        match (self.stage, document) {
            (RestoreStage::VerifyConnections, Ok(tree)) => if json::same_tree(
                tree,
                self.connections,
            ) {
                self.at(RestoreStage::VerifyCredentials)
            } else {
                self.undone(Fault::Config("Maka LLM 连接配置恢复后校验不一致"@))
            },
            (RestoreStage::VerifyConnections, Err(fault)) => self.undone(fault),
            (RestoreStage::VerifyCredentials, Ok(tree)) => match self.credentials {
                Some(expected) => if json::same_tree(tree, expected) {
                    self.at(RestoreStage::Finished)
                } else {
                    self.undone(Fault::Config("Maka LLM 凭据恢复后校验不一致"@))
                },
                None => self,
            },
            (RestoreStage::VerifyCredentials, Err(fault)) => if self.credentials is Some {
                self.undone(fault)
            } else {
                self
            },
            _ => self,
        }
    }

    /// What the backup becomes as bytes.
    pub open spec fn written(self) -> RunFacts {
        self.ready(
            json::pretty_json(self.connections),
            match self.credentials {
                Some(tree) => Some(json::pretty_json(tree)),
                None => None,
            },
        )
    }
}

/// What was wrong with the files before.
pub open spec fn orphan_fault() -> Fault {
    Fault::Config("Maka 当前凭据缺少配套连接配置，无法创建安全备份，恢复已取消"@)
}

/// The run after an event. An event that does not answer the stage leaves it.
pub open spec fn after_event(run: RunFacts, event: EventFacts) -> RunFacts {
    match (run.stage, event) {
        (RestoreStage::ReadPrevious, EventFacts::Previous { connections, credentials }) => {
            let seen = RunFacts {
                previous_connections: connections,
                previous_credentials: credentials,
                ..run
            };
            if connections is None && credentials is Some {
                seen.refused(orphan_fault())
            } else if connections is Some {
                seen.at(RestoreStage::SafetyBackup)
            } else {
                seen.written()
            }
        },
        (RestoreStage::ReadPrevious, EventFacts::Failed(fault)) => run.refused(fault),
        (RestoreStage::SafetyBackup, EventFacts::SafetyBackup(name)) => (RunFacts {
            safety_backup: Some(name),
            ..run
        }).written(),
        (RestoreStage::SafetyBackup, EventFacts::Failed(fault)) => run.refused(fault),
        (RestoreStage::WriteCredentials, EventFacts::Written) => run.at(
            RestoreStage::WriteConnections,
        ),
        (RestoreStage::WriteCredentials, EventFacts::Failed(fault)) => run.undone(fault),
        (RestoreStage::WriteConnections, EventFacts::Written) => run.at(
            RestoreStage::VerifyConnections,
        ),
        (RestoreStage::WriteConnections, EventFacts::Failed(fault)) => run.undone(fault),
        (RestoreStage::VerifyConnections, EventFacts::ReadBack { path, bytes }) => run.compared(
            backup::file_document(path, bytes),
        ),
        (RestoreStage::VerifyConnections, EventFacts::Failed(fault)) => run.undone(fault),
        (RestoreStage::VerifyCredentials, EventFacts::ReadBack { path, bytes }) => run.compared(
            backup::file_document(path, bytes),
        ),
        (RestoreStage::VerifyCredentials, EventFacts::CredentialsThere(there)) => match run.credentials {
            Some(_) => run,
            None => if there {
                run.undone(Fault::Config("Maka LLM 无凭据备份恢复后仍残留凭据"@))
            } else {
                run.at(RestoreStage::Finished)
            },
        },
        (RestoreStage::VerifyCredentials, EventFacts::Failed(fault)) => run.undone(fault),
        (RestoreStage::UndoCredentials, EventFacts::Written) => run.at(
            RestoreStage::UndoConnections,
        ),
        (RestoreStage::UndoCredentials, EventFacts::Failed(fault)) => RunFacts {
            stage: RestoreStage::UndoConnections,
            undo_error: Some(fault),
            ..run
        },
        (RestoreStage::UndoConnections, EventFacts::Written) => run.at(RestoreStage::Finished),
        (RestoreStage::UndoConnections, EventFacts::Failed(fault)) => RunFacts {
            stage: RestoreStage::Finished,
            undo_error: match run.undo_error {
                Some(first) => Some(first),
                None => Some(fault),
            },
            ..run
        },
        _ => run,
    }
}

impl RestoreRun {
    /// The run that is given up before a file was touched.
    fn refused(self, error: AppError) -> (r: RestoreRun)
        ensures
            r@ == self@.refused(error@),
    {
        RestoreRun { stage: RestoreStage::Finished, error: Some(error), ..self }
    }

    /// The run that is given up and puts the files back.
    fn undone(self, error: AppError) -> (r: RestoreRun)
        ensures
            r@ == self@.undone(error@),
    {
        RestoreRun { stage: RestoreStage::UndoCredentials, error: Some(error), ..self }
    }

    /// The run at another stage.
    fn at(self, stage: RestoreStage) -> (r: RestoreRun)
        ensures
            r@ == self@.at(stage),
    {
        RestoreRun { stage, ..self }
    }

    /// The run that is ready to write bytes.
    pub fn ready(
        self,
        connections: Result<Vec<u8>, String>,
        credentials: Option<Result<Vec<u8>, String>>,
    ) -> (r: RestoreRun)
        ensures
            r@ == self@.ready(
                match connections {
                    Ok(bytes) => Ok(bytes@),
                    Err(error) => Err(error@),
                },
                match credentials {
                    Some(Ok(bytes)) => Some(Ok(bytes@)),
                    Some(Err(error)) => Some(Err(error@)),
                    None => None,
                },
            ),
    {
        let bytes = match connections {
            Ok(bytes) => bytes,
            Err(error) => return self.refused(AppError::Json(error)),
        };
        let secrets = match credentials {
            Some(Ok(bytes)) => Some(bytes),
            Some(Err(error)) => return self.refused(AppError::Json(error)),
            None => None,
        };
        RestoreRun {
            stage: RestoreStage::WriteCredentials,
            connections_bytes: bytes,
            credentials_bytes: secrets,
            ..self
        }
    }

    /// The run that is ready to write what the backup becomes as bytes.
    fn written(self) -> (r: RestoreRun)
        ensures
            r@ == self@.written(),
    {
        let connections = json::pretty_bytes(&self.connections);
        let credentials = match &self.credentials {
            Some(value) => Some(json::pretty_bytes(value)),
            None => None,
        };
        self.ready(connections, credentials)
    }

    /// The run after a document was read back: it goes on where the document is
    /// the one that the stage expects.
    pub fn compared(self, document: Result<serde_json::Value, AppError>) -> (r: RestoreRun)
        ensures
            r@ == self@.compared(
                match document {
                    Ok(value) => Ok(json::json_content(value)),
                    Err(error) => Err(error@),
                },
            ),
    {
        match (self.stage, document) {
            (RestoreStage::VerifyConnections, Ok(value)) => {
                if json::values_equal(&value, &self.connections) {
                    self.at(RestoreStage::VerifyCredentials)
                } else {
                    self.undone(
                        AppError::Config("Maka LLM 连接配置恢复后校验不一致".to_owned()),
                    )
                }
            },
            (RestoreStage::VerifyConnections, Err(error)) => self.undone(error),
            (RestoreStage::VerifyCredentials, Ok(value)) => {
                let same: Option<bool> = match &self.credentials {
                    Some(credentials) => Some(json::values_equal(&value, credentials)),
                    None => None,
                };
                match same {
                    Some(true) => self.at(RestoreStage::Finished),
                    Some(false) => self.undone(
                        AppError::Config("Maka LLM 凭据恢复后校验不一致".to_owned()),
                    ),
                    None => self,
                }
            },
            (RestoreStage::VerifyCredentials, Err(error)) => {
                if self.credentials.is_some() {
                    self.undone(error)
                } else {
                    self
                }
            },
            _ => self,
        }
    }

    /// The run after an event.
    pub fn advance(self, event: RestoreEvent) -> (r: RestoreRun)
        ensures
            r@ == after_event(self@, event@),
    {
        match (self.stage, event) {
            (RestoreStage::ReadPrevious, RestoreEvent::Previous { connections, credentials }) => {
                let orphan = connections.is_none() && credentials.is_some();
                let safety = connections.is_some();
                let seen = RestoreRun {
                    previous_connections: connections,
                    previous_credentials: credentials,
                    ..self
                };
                if orphan {
                    seen.refused(
                        AppError::Config(
                            "Maka 当前凭据缺少配套连接配置，无法创建安全备份，恢复已取消".to_owned(),
                        ),
                    )
                } else if safety {
                    seen.at(RestoreStage::SafetyBackup)
                } else {
                    seen.written()
                }
            },
            (RestoreStage::ReadPrevious, RestoreEvent::Failed(error)) => self.refused(error),
            (RestoreStage::SafetyBackup, RestoreEvent::SafetyBackup(name)) => {
                let saved = RestoreRun { safety_backup: Some(name), ..self };
                saved.written()
            },
            (RestoreStage::SafetyBackup, RestoreEvent::Failed(error)) => self.refused(error),
            (RestoreStage::WriteCredentials, RestoreEvent::Written) => self.at(
                RestoreStage::WriteConnections,
            ),
            (RestoreStage::WriteCredentials, RestoreEvent::Failed(error)) => self.undone(error),
            (RestoreStage::WriteConnections, RestoreEvent::Written) => self.at(
                RestoreStage::VerifyConnections,
            ),
            (RestoreStage::WriteConnections, RestoreEvent::Failed(error)) => self.undone(error),
            (RestoreStage::VerifyConnections, RestoreEvent::ReadBack { path, bytes }) => {
                self.compared(backup::document_in(path.as_str(), &bytes))
            },
            (RestoreStage::VerifyConnections, RestoreEvent::Failed(error)) => self.undone(error),
            (RestoreStage::VerifyCredentials, RestoreEvent::ReadBack { path, bytes }) => {
                self.compared(backup::document_in(path.as_str(), &bytes))
            },
            (RestoreStage::VerifyCredentials, RestoreEvent::CredentialsThere(there)) => {
                if self.credentials.is_some() {
                    self
                } else if there {
                    self.undone(
                        AppError::Config("Maka LLM 无凭据备份恢复后仍残留凭据".to_owned()),
                    )
                } else {
                    self.at(RestoreStage::Finished)
                }
            },
            (RestoreStage::VerifyCredentials, RestoreEvent::Failed(error)) => self.undone(error),
            (RestoreStage::UndoCredentials, RestoreEvent::Written) => self.at(
                RestoreStage::UndoConnections,
            ),
            (RestoreStage::UndoCredentials, RestoreEvent::Failed(error)) => RestoreRun {
                stage: RestoreStage::UndoConnections,
                undo_error: Some(error),
                ..self
            },
            (RestoreStage::UndoConnections, RestoreEvent::Written) => self.at(
                RestoreStage::Finished,
            ),
            (RestoreStage::UndoConnections, RestoreEvent::Failed(error)) => {
                if self.undo_error.is_some() {
                    self.at(RestoreStage::Finished)
                } else {
                    RestoreRun {
                        stage: RestoreStage::Finished,
                        undo_error: Some(error),
                        ..self
                    }
                }
            },
            _ => self,
        }
    }

    /// What a finished run reports. Where files could not be put back, the
    /// failure says so.
    pub fn outcome(self) -> (r: Result<MakaLlmRestoreResult, AppError>)
        requires
            self@.stage == RestoreStage::Finished,
        ensures
            match (self@.error, self@.undo_error) {
                (None, _) => r matches Ok(result) && {
                    &&& text::opt_text(result.safety_backup_filename) == self@.safety_backup
                    &&& result.connection_count == self@.connection_count
                    &&& result.credential_count == self@.credential_count
                    &&& result.includes_credentials == self@.credentials is Some
                },
                (Some(fault), None) => r matches Err(error) && error@ == fault,
                (Some(fault), Some(undo)) => r matches Err(error) && error@ == Fault::Config(
                    "Maka LLM 配置恢复失败: "@ + fault.text() + "；自动回滚也失败: "@ + undo.text(),
                ),
            },
    {
        match (self.error, self.undo_error) {
            (None, _) => Ok(
                MakaLlmRestoreResult {
                    safety_backup_filename: self.safety_backup,
                    connection_count: self.connection_count,
                    credential_count: self.credential_count,
                    includes_credentials: self.credentials.is_some(),
                },
            ),
            (Some(error), None) => Err(error),
            (Some(error), Some(undo)) => {
                let head = text::joined3(
                    "Maka LLM 配置恢复失败: ",
                    error.text(),
                    "；自动回滚也失败: ",
                );
                Err(AppError::Config(text::joined(head.as_str(), undo.text())))
            },
        }
    }
}

/// The run that begins to restore a valid backup.
pub open spec fn begun(file: BackupFacts, n: (int, int)) -> RunFacts {
    RunFacts {
        stage: RestoreStage::ReadPrevious,
        connection_count: n.0,
        credential_count: n.1,
        connections: file.connections,
        credentials: file.credentials,
        connections_bytes: Seq::empty(),
        credentials_bytes: None,
        previous_connections: None,
        previous_credentials: None,
        safety_backup: None,
        error: None,
        undo_error: None,
    }
}

impl MakaConfigBackupService {
    /// Begins to restore the backup of that name. `file` is what was read of
    /// it, and nothing where there is no such file.
    pub fn restore_backup(filename: &str, file: Option<Result<MakaLlmBackupFile, AppError>>) -> (r:
        Result<RestoreRun, AppError>)
        ensures
            if !backup::valid_name(filename@) {
                r matches Err(error) && error@ == Fault::InvalidInput("Maka LLM 备份文件名无效"@)
            } else {
                match file {
                    None => r matches Err(error) && error@ == Fault::InvalidInput(
                        "Maka LLM 备份不存在: "@ + filename@,
                    ),
                    Some(Err(e)) => r matches Err(error) && error@ == e@,
                    Some(Ok(bundle)) => match backup::checked_backup(bundle@) {
                        Err(fault) => r matches Err(error) && error@ == fault,
                        Ok(n) => r matches Ok(run) && run@ == begun(bundle@, n),
                    },
                }
            },
    {
        match backup::validate_backup_filename(filename) {
            Ok(_) => {},
            Err(error) => return Err(error),
        }
        let bundle = match file {
            None => return Err(
                AppError::InvalidInput(text::joined("Maka LLM 备份不存在: ", filename)),
            ),
            Some(Err(error)) => return Err(error),
            Some(Ok(bundle)) => bundle,
        };
        let n: (usize, usize) = match backup::check_backup_file(&bundle) {
            Ok(n) => n,
            Err(error) => return Err(error),
        };
        let run = RestoreRun {
            stage: RestoreStage::ReadPrevious,
            connection_count: n.0,
            credential_count: n.1,
            connections: bundle.llm_connections,
            credentials: bundle.credentials,
            connections_bytes: Vec::new(),
            credentials_bytes: None,
            previous_connections: None,
            previous_credentials: None,
            safety_backup: None,
            error: None,
            undo_error: None,
        };
        assert(run@.connections_bytes =~= Seq::<u8>::empty());
        Ok(run)
    }
}

} // verus!
