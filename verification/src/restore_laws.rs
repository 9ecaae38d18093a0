//! What a restore of Maka's configuration leaves on disk.

use vstd::prelude::*;
use crate::backup;
use crate::backup::BackupFacts;
use crate::error::Fault;
use crate::json;
use crate::json::JsonTree;
use crate::restore;
use crate::restore::{EventFacts, RestoreStage, RunFacts};

verus! {

/// Maka's two files, their bytes as far as they exist, and the backups by
/// their names.
pub struct MakaDisk {
    pub connections: Option<Seq<u8>>,
    pub credentials: Option<Seq<u8>>,
    pub backups: Map<Seq<char>, BackupFacts>,
}

/// The document that a file holds, where there is one.
pub open spec fn document_of(bytes: Option<Seq<u8>>) -> Option<JsonTree> {
    match bytes {
        Some(b) => match json::parsed_json_bytes(b) {
            Ok(tree) => Some(tree),
            Err(_) => None,
        },
        None => None,
    }
}

/// Whether a file holds a document.
pub open spec fn holds(bytes: Option<Seq<u8>>, tree: JsonTree) -> bool {
    document_of(bytes) matches Some(found) && json::same_tree(found, tree)
}

/// Whether a file holds a document where there is one, and is not there where
/// there is none.
pub open spec fn holds_or_is_gone(bytes: Option<Seq<u8>>, tree: Option<JsonTree>) -> bool {
    match tree {
        Some(expected) => holds(bytes, expected),
        None => bytes is None,
    }
}

/// A safety backup of Maka's two files.
pub open spec fn keeps(saved: BackupFacts, disk: MakaDisk) -> bool {
    &&& document_of(disk.connections) matches Some(connections)
    &&& disk.credentials is Some ==> document_of(disk.credentials) is Some
    &&& saved == backup::backup_of(
        connections,
        document_of(disk.credentials),
        backup::SAFETY_BACKUP@,
        saved.created_at,
    )
    &&& backup::checked_backup(saved) is Ok
}

/// An event that a stage can have on a disk `before` and leave it as `after`.
/// A write that fails may leave anything in its own file, and a backup that
/// fails may leave a new one.
pub open spec fn happens(
    run: RunFacts,
    event: EventFacts,
    before: MakaDisk,
    after: MakaDisk,
) -> bool {
    match (run.stage, event) {
        (RestoreStage::ReadPrevious, EventFacts::Previous { connections, credentials }) => {
            &&& connections == before.connections
            &&& credentials == before.credentials
            &&& after == before
        },
        (RestoreStage::SafetyBackup, EventFacts::SafetyBackup(name)) => {
            &&& !before.backups.contains_key(name)
            &&& backup::valid_name(name)
            &&& keeps(after.backups[name], before)
            &&& after == (MakaDisk {
                backups: before.backups.insert(name, after.backups[name]),
                ..before
            })
        },
        (RestoreStage::SafetyBackup, EventFacts::Failed(_)) => {
            &&& before.backups.submap_of(after.backups)
            &&& after == (MakaDisk { backups: after.backups, ..before })
        },
        (RestoreStage::WriteCredentials, EventFacts::Written) => after == (MakaDisk {
            credentials: run.credentials_bytes,
            ..before
        }),
        (RestoreStage::WriteConnections, EventFacts::Written) => after == (MakaDisk {
            connections: Some(run.connections_bytes),
            ..before
        }),
        (RestoreStage::VerifyConnections, EventFacts::ReadBack { path, bytes }) => {
            &&& before.connections == Some(bytes)
            &&& after == before
        },
        (RestoreStage::VerifyCredentials, EventFacts::ReadBack { path, bytes }) => {
            &&& before.credentials == Some(bytes)
            &&& after == before
        },
        (RestoreStage::VerifyCredentials, EventFacts::CredentialsThere(there)) => {
            &&& there == before.credentials is Some
            &&& after == before
        },
        (RestoreStage::UndoCredentials, EventFacts::Written) => after == (MakaDisk {
            credentials: run.previous_credentials,
            ..before
        }),
        (RestoreStage::UndoConnections, EventFacts::Written) => after == (MakaDisk {
            connections: run.previous_connections,
            ..before
        }),
        (RestoreStage::WriteCredentials, EventFacts::Failed(_)) => after == (MakaDisk {
            credentials: after.credentials,
            ..before
        }),
        (RestoreStage::UndoCredentials, EventFacts::Failed(_)) => after == (MakaDisk {
            credentials: after.credentials,
            ..before
        }),
        (RestoreStage::WriteConnections, EventFacts::Failed(_)) => after == (MakaDisk {
            connections: after.connections,
            ..before
        }),
        (RestoreStage::UndoConnections, EventFacts::Failed(_)) => after == (MakaDisk {
            connections: after.connections,
            ..before
        }),
        _ => after == before,
    }
}

/// The backups after the stage that makes one: where there were connections, a
/// new one keeps both files, and no other changed.
pub open spec fn saved(run: RunFacts, first: MakaDisk, disk: MakaDisk) -> bool {
    match first.connections {
        Some(_) => run.safety_backup matches Some(name) && {
            &&& !first.backups.contains_key(name)
            &&& backup::valid_name(name)
            &&& disk.backups == first.backups.insert(name, disk.backups[name])
            &&& keeps(disk.backups[name], first)
        },
        None => run.safety_backup is None && disk.backups == first.backups,
    }
}

/// What holds of a run and the disk at every stage, where `first` is the disk
/// as the run found it.
pub open spec fn on_course(run: RunFacts, first: MakaDisk, disk: MakaDisk) -> bool {
    let known = run.previous_connections == first.connections && run.previous_credentials
        == first.credentials;
    let sound = run.error is None && run.undo_error is None;
    match run.stage {
        RestoreStage::ReadPrevious => sound && run.safety_backup is None && disk == first,
        RestoreStage::SafetyBackup => sound && known && run.safety_backup is None && disk == first
            && first.connections is Some,
        RestoreStage::WriteCredentials => sound && known && saved(run, first, disk)
            && disk.credentials == first.credentials && disk.connections == first.connections,
        RestoreStage::WriteConnections => sound && known && saved(run, first, disk)
            && disk.credentials == run.credentials_bytes && disk.connections == first.connections,
        RestoreStage::VerifyConnections => sound && known && saved(run, first, disk)
            && disk.credentials == run.credentials_bytes && disk.connections == Some(
            run.connections_bytes,
        ),
        RestoreStage::VerifyCredentials => sound && known && saved(run, first, disk)
            && disk.credentials == run.credentials_bytes && disk.connections == Some(
            run.connections_bytes,
        ) && holds(disk.connections, run.connections),
        RestoreStage::UndoCredentials => known && saved(run, first, disk) && run.error is Some
            && run.undo_error is None,
        RestoreStage::UndoConnections => known && saved(run, first, disk) && run.error is Some && (
        run.undo_error is None ==> disk.credentials == first.credentials),
        RestoreStage::Finished => match run.error {
            None => saved(run, first, disk) && disk.credentials == run.credentials_bytes
                && disk.connections == Some(run.connections_bytes) && holds(
                disk.connections,
                run.connections,
            ) && holds_or_is_gone(disk.credentials, run.credentials),
            Some(_) => first.backups.submap_of(disk.backups) && (run.undo_error is None
                ==> disk.connections == first.connections && disk.credentials
                == first.credentials),
        },
    }
}

/// Every stage keeps a restore on course. Until something is written, both
/// files are as they were. Where there were connections, a new backup that
/// keeps both files comes before the first write. A restore that succeeds has
/// read both files back: they hold the documents of the backup, and where the
/// backup has no credentials there are none. One that fails has left both
/// files as they were, unless putting them back failed too.
pub proof fn law_restore_stays_on_course(
    run: RunFacts,
    event: EventFacts,
    first: MakaDisk,
    before: MakaDisk,
    after: MakaDisk,
)
    requires
        on_course(run, first, before),
        happens(run, event, before, after),
    ensures
        on_course(restore::after_event(run, event), first, after),
{
}

/// One step of a restore: what came of a stage, and the disk after it.
pub struct Step {
    pub event: EventFacts,
    pub disk: MakaDisk,
}

/// The run after steps, one by one.
pub open spec fn after_steps(run: RunFacts, steps: Seq<Step>) -> RunFacts
    decreases steps.len(),
{
    if steps.len() == 0 {
        run
    } else {
        restore::after_event(after_steps(run, steps.drop_last()), steps.last().event)
    }
}

/// The disk after steps.
pub open spec fn disk_after(first: MakaDisk, steps: Seq<Step>) -> MakaDisk {
    if steps.len() == 0 {
        first
    } else {
        steps.last().disk
    }
}

/// Whether each of the steps can happen where the ones before it led.
pub open spec fn take_place(run: RunFacts, first: MakaDisk, steps: Seq<Step>) -> bool
    decreases steps.len(),
{
    steps.len() == 0 || {
        &&& take_place(run, first, steps.drop_last())
        &&& happens(
            after_steps(run, steps.drop_last()),
            steps.last().event,
            disk_after(first, steps.drop_last()),
            steps.last().disk,
        )
    }
}

/// A restore of `file` that began on the disk `first`, took these steps and
/// succeeded.
pub open spec fn succeeded(file: BackupFacts, first: MakaDisk, steps: Seq<Step>) -> bool {
    let run = restore::begun(file, backup::checked_backup(file)->Ok_0);
    &&& backup::checked_backup(file) is Ok
    &&& take_place(run, first, steps)
    &&& after_steps(run, steps).stage == RestoreStage::Finished
    &&& after_steps(run, steps).error is None
}

/// A restore of a backup, whatever came of each stage, stays on course, and
/// what it is to put in place does not change on the way.
pub proof fn law_restore_is_on_course(
    file: BackupFacts,
    n: (int, int),
    first: MakaDisk,
    steps: Seq<Step>,
)
    requires
        take_place(restore::begun(file, n), first, steps),
    ensures
        ({
            let run = after_steps(restore::begun(file, n), steps);
            &&& on_course(run, first, disk_after(first, steps))
            &&& run.connections == file.connections
            &&& run.credentials == file.credentials
            &&& run.connection_count == n.0
            &&& run.credential_count == n.1
        }),
    decreases steps.len(),
{
    if steps.len() > 0 {
        let fewer = steps.drop_last();
        law_restore_is_on_course(file, n, first, fewer);
        law_restore_stays_on_course(
            after_steps(restore::begun(file, n), fewer),
            steps.last().event,
            first,
            disk_after(first, fewer),
            steps.last().disk,
        );
    }
}

/// A restore that succeeds leaves the documents of the backup in Maka's files,
/// and no credentials where the backup has none. It reports what the backup
/// counts. Where there were connections, it names a new safety backup that
/// keeps both files as they were; every other backup is as it was.
pub proof fn law_restore_puts_the_backup_in_place(
    file: BackupFacts,
    first: MakaDisk,
    steps: Seq<Step>,
)
    requires
        succeeded(file, first, steps),
    ensures
        ({
            let n = backup::checked_backup(file)->Ok_0;
            let run = after_steps(restore::begun(file, n), steps);
            let disk = disk_after(first, steps);
            &&& holds(disk.connections, file.connections)
            &&& holds_or_is_gone(disk.credentials, file.credentials)
            &&& run.connection_count == n.0
            &&& run.credential_count == n.1
            &&& run.credentials == file.credentials
            &&& saved(run, first, disk)
            &&& first.backups.submap_of(disk.backups)
        }),
{
    law_restore_is_on_course(file, backup::checked_backup(file)->Ok_0, first, steps);
}

/// A restore that fails leaves Maka's files as they were, unless putting them
/// back failed too, which its report says; no backup is lost.
pub proof fn law_failed_restore_changes_nothing(
    file: BackupFacts,
    n: (int, int),
    first: MakaDisk,
    steps: Seq<Step>,
)
    requires
        take_place(restore::begun(file, n), first, steps),
        after_steps(restore::begun(file, n), steps).stage == RestoreStage::Finished,
        after_steps(restore::begun(file, n), steps).error is Some,
    ensures
        ({
            let run = after_steps(restore::begun(file, n), steps);
            let disk = disk_after(first, steps);
            &&& first.backups.submap_of(disk.backups)
            &&& run.undo_error is None ==> disk.connections == first.connections
                && disk.credentials == first.credentials
        }),
{
    law_restore_is_on_course(file, n, first, steps);
}

/// Whether a document that is written reads back as the same one.
pub open spec fn reads_back(tree: JsonTree) -> bool {
    json::pretty_json(tree) matches Ok(bytes) && holds(Some(bytes), tree)
}

/// Whether the documents of a backup read back as the same ones once they are
/// written.
pub open spec fn backup_reads_back(file: BackupFacts) -> bool {
    reads_back(file.connections) && (file.credentials matches Some(tree) ==> reads_back(tree))
}

/// Whether an event is what a stage asks for, and no failure.
pub open spec fn answers(run: RunFacts, event: EventFacts) -> bool {
    match (run.stage, event) {
        (RestoreStage::ReadPrevious, EventFacts::Previous { .. }) => true,
        (RestoreStage::SafetyBackup, EventFacts::SafetyBackup(_)) => true,
        (RestoreStage::WriteCredentials, EventFacts::Written) => true,
        (RestoreStage::WriteConnections, EventFacts::Written) => true,
        (RestoreStage::VerifyConnections, EventFacts::ReadBack { .. }) => true,
        (RestoreStage::VerifyCredentials, EventFacts::ReadBack { .. }) => run.credentials is Some,
        (RestoreStage::VerifyCredentials, EventFacts::CredentialsThere(_)) => run.credentials is None,
        (RestoreStage::UndoCredentials, EventFacts::Written) => true,
        (RestoreStage::UndoConnections, EventFacts::Written) => true,
        (RestoreStage::Finished, _) => true,
        _ => false,
    }
}

/// Whether every stage of a run got what it asked for, and nothing failed.
pub open spec fn all_answered(run: RunFacts, steps: Seq<Step>) -> bool
    decreases steps.len(),
{
    steps.len() == 0 || {
        &&& all_answered(run, steps.drop_last())
        &&& answers(after_steps(run, steps.drop_last()), steps.last().event)
    }
}

/// How many stages lie behind a run that goes well.
pub open spec fn stages_done(stage: RestoreStage) -> int {
    match stage {
        RestoreStage::ReadPrevious => 0,
        RestoreStage::SafetyBackup => 1,
        RestoreStage::WriteCredentials => 2,
        RestoreStage::WriteConnections => 3,
        RestoreStage::VerifyConnections => 4,
        RestoreStage::VerifyCredentials => 5,
        _ => 6,
    }
}

/// A run that goes well: it has the bytes of its documents once it writes, and
/// every step brings it a stage further.
spec fn goes_well(run: RunFacts, count: int) -> bool {
    &&& run.error is None
    &&& run.stage != RestoreStage::UndoCredentials
    &&& run.stage != RestoreStage::UndoConnections
    &&& stages_done(run.stage) >= count || run.stage == RestoreStage::Finished
    &&& stages_done(run.stage) >= 2 ==> {
        &&& json::pretty_json(run.connections) == Ok::<Seq<u8>, Seq<char>>(run.connections_bytes)
        &&& match run.credentials {
            Some(tree) => run.credentials_bytes matches Some(bytes) && json::pretty_json(tree)
                == Ok::<Seq<u8>, Seq<char>>(bytes),
            None => run.credentials_bytes is None,
        }
    }
}

proof fn lemma_goes_well(
    file: BackupFacts,
    n: (int, int),
    first: MakaDisk,
    steps: Seq<Step>,
)
    requires
        backup_reads_back(file),
        first.connections is Some || first.credentials is None,
        take_place(restore::begun(file, n), first, steps),
        all_answered(restore::begun(file, n), steps),
    ensures
        goes_well(after_steps(restore::begun(file, n), steps), steps.len() as int),
    decreases steps.len(),
{
    let start = restore::begun(file, n);
    if steps.len() > 0 {
        let fewer = steps.drop_last();
        lemma_goes_well(file, n, first, fewer);
        law_restore_is_on_course(file, n, first, fewer);
    }
}

/// A restore of a valid backup succeeds where nothing fails: every stage gets
/// what it asked for, the documents read back as they were written, and there
/// are no credentials without connections before.
pub proof fn law_restore_succeeds(file: BackupFacts, first: MakaDisk, steps: Seq<Step>)
    requires
        backup::checked_backup(file) is Ok,
        backup_reads_back(file),
        first.connections is Some || first.credentials is None,
        take_place(
            restore::begun(file, backup::checked_backup(file)->Ok_0),
            first,
            steps,
        ),
        all_answered(restore::begun(file, backup::checked_backup(file)->Ok_0), steps),
        steps.len() >= 6,
    ensures
        succeeded(file, first, steps),
{
    lemma_goes_well(file, backup::checked_backup(file)->Ok_0, first, steps);
}

/// What was backed up comes back. A backup that was made of two documents is
/// valid. Where nothing fails, its restore succeeds and leaves these documents
/// in Maka's files, whatever valid ones they held; it reports what the
/// documents count, and whether there are credentials; it names a new safety
/// backup with the documents that were there; and the backup is as it was.
pub proof fn law_backup_comes_back(
    connections_path: Seq<char>,
    connections: JsonTree,
    credentials: Option<JsonTree>,
    backup_type: Seq<char>,
    created_at: Seq<char>,
    filename: Seq<char>,
    first: MakaDisk,
    steps: Seq<Step>,
)
    requires
        backup_type == backup::MANUAL_BACKUP@ || backup_type == backup::SAFETY_BACKUP@,
        backup::source_counts(
            connections_path,
            Some(Ok(connections)),
            match credentials {
                Some(tree) => Some(Ok(tree)),
                None => None,
            },
        ) is Ok,
        ({
            let file = backup::backup_of(connections, credentials, backup_type, created_at);
            let run = restore::begun(file, backup::checked_backup(file)->Ok_0);
            &&& backup_reads_back(file)
            &&& first.backups.contains_key(filename)
            &&& first.backups[filename] == file
            &&& first.connections is Some || first.credentials is None
            &&& take_place(run, first, steps)
            &&& all_answered(run, steps)
            &&& steps.len() >= 6
        }),
    ensures
        ({
            let file = backup::backup_of(connections, credentials, backup_type, created_at);
            let n = backup::source_counts(
                connections_path,
                Some(Ok(connections)),
                match credentials {
                    Some(tree) => Some(Ok(tree)),
                    None => None,
                },
            )->Ok_0;
            let run = after_steps(restore::begun(file, n), steps);
            let disk = disk_after(first, steps);
            &&& backup::checked_backup(file) == Ok::<(int, int), Fault>(n)
            &&& run.stage == RestoreStage::Finished
            &&& run.error is None
            &&& holds(disk.connections, connections)
            &&& holds_or_is_gone(disk.credentials, credentials)
            &&& run.connection_count == n.0
            &&& run.credential_count == n.1
            &&& run.credentials == credentials
            &&& saved(run, first, disk)
            &&& disk.backups.contains_key(filename)
            &&& disk.backups[filename] == file
        }),
{
    let file = backup::backup_of(connections, credentials, backup_type, created_at);
    backup::law_backup_can_be_restored(
        connections_path,
        connections,
        credentials,
        backup_type,
        created_at,
    );
    law_restore_succeeds(file, first, steps);
    law_restore_puts_the_backup_in_place(file, first, steps);
    assert(first.backups.dom().contains(filename));
}

/// Restoring the safety backup undoes a restore. After a restore that
/// succeeded, where there were connections before and nothing fails, the
/// restore of the backup that it names succeeds: Maka's files hold the
/// documents that they held, and there are no credentials where there were
/// none.
pub proof fn law_safety_backup_undoes_a_restore(
    file: BackupFacts,
    first: MakaDisk,
    steps: Seq<Step>,
    undoing: Seq<Step>,
)
    requires
        succeeded(file, first, steps),
        first.connections is Some,
        document_of(first.connections) matches Some(tree) ==> reads_back(tree),
        document_of(first.credentials) matches Some(tree) ==> reads_back(tree),
        ({
            let run = after_steps(
                restore::begun(file, backup::checked_backup(file)->Ok_0),
                steps,
            );
            let disk = disk_after(first, steps);
            let safety = disk.backups[run.safety_backup->0];
            let again = restore::begun(safety, backup::checked_backup(safety)->Ok_0);
            &&& take_place(again, disk, undoing)
            &&& all_answered(again, undoing)
            &&& undoing.len() >= 6
        }),
    ensures
        ({
            let run = after_steps(
                restore::begun(file, backup::checked_backup(file)->Ok_0),
                steps,
            );
            let disk = disk_after(first, steps);
            let last = disk_after(disk, undoing);
            &&& run.safety_backup matches Some(name) && backup::valid_name(name)
                && disk.backups.contains_key(name) && succeeded(
                disk.backups[name],
                disk,
                undoing,
            )
            &&& document_of(first.connections) matches Some(tree) && holds(last.connections, tree)
            &&& holds_or_is_gone(last.credentials, document_of(first.credentials))
            &&& first.credentials is None ==> last.credentials is None
        }),
{
    law_restore_puts_the_backup_in_place(file, first, steps);
    let run = after_steps(restore::begun(file, backup::checked_backup(file)->Ok_0), steps);
    let disk = disk_after(first, steps);
    let safety = disk.backups[run.safety_backup->0];
    law_restore_succeeds(safety, disk, undoing);
    law_restore_puts_the_backup_in_place(safety, disk, undoing);
}

/// Credentials without connections are never touched: the restore is refused.
pub proof fn law_orphan_credentials_are_kept(run: RunFacts, credentials: Seq<u8>)
    requires
        run.stage == RestoreStage::ReadPrevious,
    ensures
        restore::after_event(
            run,
            EventFacts::Previous { connections: None, credentials: Some(credentials) },
        ).stage == RestoreStage::Finished,
        restore::after_event(
            run,
            EventFacts::Previous { connections: None, credentials: Some(credentials) },
        ).error == Some(restore::orphan_fault()),
{
}

/// The first failure is the one that is reported. Before a file is touched it
/// ends the restore; from the first write on both files are put back. What
/// fails while they are put back does not take its place, and of two such
/// failures the first is kept.
pub proof fn law_first_failure_is_reported(run: RunFacts, fault: Fault)
    ensures
        ({
            let next = restore::after_event(run, EventFacts::Failed(fault));
            match run.stage {
                RestoreStage::ReadPrevious | RestoreStage::SafetyBackup => {
                    &&& next.stage == RestoreStage::Finished
                    &&& next.error == Some(fault)
                    &&& next.undo_error == run.undo_error
                },
                RestoreStage::UndoCredentials => {
                    &&& next.stage == RestoreStage::UndoConnections
                    &&& next.error == run.error
                    &&& next.undo_error == Some(fault)
                },
                RestoreStage::UndoConnections => {
                    &&& next.stage == RestoreStage::Finished
                    &&& next.error == run.error
                    &&& next.undo_error == if run.undo_error is Some {
                        run.undo_error
                    } else {
                        Some(fault)
                    }
                },
                RestoreStage::Finished => next == run,
                _ => {
                    &&& next.stage == RestoreStage::UndoCredentials
                    &&& next.error == Some(fault)
                    &&& next.undo_error == run.undo_error
                },
            }
        }),
{
}

/// A restore that reads back another document than it wrote, or finds
/// credentials where there are to be none, says which, and puts both files
/// back.
pub proof fn law_what_was_not_restored_is_named(
    run: RunFacts,
    path: Seq<char>,
    bytes: Seq<u8>,
    found: JsonTree,
    expected: JsonTree,
)
    requires
        backup::file_document(path, bytes) == Ok::<JsonTree, Fault>(found),
    ensures
        run.stage == RestoreStage::VerifyConnections && !json::same_tree(found, run.connections)
            ==> {
            let next = restore::after_event(run, EventFacts::ReadBack { path, bytes });
            &&& next.stage == RestoreStage::UndoCredentials
            &&& next.error == Some(Fault::Config("Maka LLM 连接配置恢复后校验不一致"@))
        },
        run.stage == RestoreStage::VerifyCredentials && run.credentials == Some(expected)
            && !json::same_tree(found, expected) ==> {
            let next = restore::after_event(run, EventFacts::ReadBack { path, bytes });
            &&& next.stage == RestoreStage::UndoCredentials
            &&& next.error == Some(Fault::Config("Maka LLM 凭据恢复后校验不一致"@))
        },
        run.stage == RestoreStage::VerifyCredentials && run.credentials is None ==> {
            let next = restore::after_event(run, EventFacts::CredentialsThere(true));
            &&& next.stage == RestoreStage::UndoCredentials
            &&& next.error == Some(Fault::Config("Maka LLM 无凭据备份恢复后仍残留凭据"@))
        },
        restore::orphan_fault() == Fault::Config(
            "Maka 当前凭据缺少配套连接配置，无法创建安全备份，恢复已取消"@,
        ),
{
}

/// A file that cannot be read back undoes the restore, with what was wrong
/// with it.
pub proof fn law_unreadable_files_undo_the_restore(
    run: RunFacts,
    path: Seq<char>,
    bytes: Seq<u8>,
    fault: Fault,
)
    requires
        backup::file_document(path, bytes) == Err::<JsonTree, Fault>(fault),
        run.stage == RestoreStage::VerifyConnections || (run.stage
            == RestoreStage::VerifyCredentials && run.credentials is Some),
    ensures
        restore::after_event(run, EventFacts::ReadBack { path, bytes }).stage
            == RestoreStage::UndoCredentials,
        restore::after_event(run, EventFacts::ReadBack { path, bytes }).error == Some(fault),
{
}

/// A restore writes its documents as JSON, and is refused, with nothing
/// touched, where one of them cannot be written so.
pub proof fn law_documents_are_written_as_json(run: RunFacts, name: Seq<char>)
    requires
        run.stage == RestoreStage::SafetyBackup,
    ensures
        ({
            let next = restore::after_event(run, EventFacts::SafetyBackup(name));
            &&& next.safety_backup == Some(name)
            &&& json::pretty_json(run.connections) matches Err(error) ==> next.stage
                == RestoreStage::Finished && next.error == Some(Fault::Json(error))
            &&& json::pretty_json(run.connections) matches Ok(bytes) ==> match run.credentials {
                None => next.stage == RestoreStage::WriteCredentials && next.connections_bytes
                    == bytes && next.credentials_bytes is None,
                Some(tree) => match json::pretty_json(tree) {
                    Ok(secrets) => next.stage == RestoreStage::WriteCredentials
                        && next.connections_bytes == bytes && next.credentials_bytes == Some(
                        secrets,
                    ),
                    Err(error) => next.stage == RestoreStage::Finished && next.error == Some(
                        Fault::Json(error),
                    ),
                },
            }
        }),
{
}

/// Stages come in their order, and an event that does not answer the stage
/// leaves the restore where it is.
pub proof fn law_stages_come_in_order(run: RunFacts, event: EventFacts)
    requires
        run.stage != RestoreStage::Finished,
        !answers(run, event),
        !(event is Failed),
    ensures
        restore::after_event(run, event) == run,
{
}

} // verus!
