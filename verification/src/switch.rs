//! Switching between Codex accounts.
//!
//! A switch is worked out as a list of file operations from what was read
//! before. The caller carries them out in order; where one fails, the rest is
//! left.

use vstd::prelude::*;
use crate::accounts;
use crate::accounts::{AuthFile, Login};
use crate::error::{AppError, Fault};
use crate::json;
use crate::paths;
use crate::registry;
use crate::registry::{ItemFacts, Registry, RegistryFacts, RegistryItem};
use crate::text;

verus! {

/// What a switch reports.
#[derive(Debug)]
pub struct CodexAccountSwitchResult {
    pub previous_account_key: Option<String>,
    pub active_account_key: String,
    pub backup_path: String,
    pub restart_recommended: bool,
}

/// What a switch reports.
pub struct SwitchFacts {
    pub previous: Option<Seq<char>>,
    pub active: Seq<char>,
    pub backup_path: Seq<char>,
    pub restart_recommended: bool,
}

impl View for CodexAccountSwitchResult {
    type V = SwitchFacts;

    open spec fn view(&self) -> SwitchFacts {
        SwitchFacts {
            previous: text::opt_text(self.previous_account_key),
            active: self.active_account_key@,
            backup_path: self.backup_path@,
            restart_recommended: self.restart_recommended,
        }
    }
}

/// The last switch, as it is kept for going back.
#[derive(Debug)]
pub struct LatestSwitch {
    pub previous_account_key: Option<String>,
    pub active_account_key: String,
    pub backup_path: String,
    pub created_at: String,
}

/// The last switch, as it is kept for going back.
pub struct LatestFacts {
    pub previous: Option<Seq<char>>,
    pub active: Seq<char>,
    pub backup_path: Seq<char>,
    pub created_at: Seq<char>,
}

impl View for LatestSwitch {
    type V = LatestFacts;

    open spec fn view(&self) -> LatestFacts {
        LatestFacts {
            previous: text::opt_text(self.previous_account_key),
            active: self.active_account_key@,
            backup_path: self.backup_path@,
            created_at: self.created_at@,
        }
    }
}

/// Something that is to be done on the file system.
#[derive(Debug)]
pub enum AccountOp {
    /// Put the contents of one file in the place of another's.
    Copy { from: String, to: String },
    WriteRegistry(Registry),
    WriteLatest(LatestSwitch),
}

/// Something that is to be done on the file system.
pub enum OpFacts {
    Copy { from: Seq<char>, to: Seq<char> },
    WriteRegistry(RegistryFacts),
    WriteLatest(LatestFacts),
}

impl View for AccountOp {
    type V = OpFacts;

    open spec fn view(&self) -> OpFacts {
        match self {
            AccountOp::Copy { from, to } => OpFacts::Copy { from: from@, to: to@ },
            AccountOp::WriteRegistry(registry) => OpFacts::WriteRegistry(registry@),
            AccountOp::WriteLatest(latest) => OpFacts::WriteLatest(latest@),
        }
    }
}

/// What operations do.
pub open spec fn ops_of(ops: Seq<AccountOp>) -> Seq<OpFacts> {
    ops.map_values(|op: AccountOp| op@)
}

/// Operations, and what is reported once they are done.
#[derive(Debug)]
pub struct SwitchPlan {
    pub ops: Vec<AccountOp>,
    pub outcome: Result<CodexAccountSwitchResult, AppError>,
}

/// Operations, and what is reported once they are done.
pub struct PlanFacts {
    pub ops: Seq<OpFacts>,
    pub outcome: Result<SwitchFacts, Fault>,
}

impl View for SwitchPlan {
    type V = PlanFacts;

    open spec fn view(&self) -> PlanFacts {
        PlanFacts {
            ops: ops_of(self.ops@),
            outcome: match self.outcome {
                Ok(result) => Ok(result@),
                Err(error) => Err(error@),
            },
        }
    }
}

/// Where a switch takes place, and when.
#[derive(Debug)]
pub struct SwitchContext {
    /// The auth file that Codex uses.
    pub auth_path: String,
    pub snapshots_dir: String,
    pub backups_dir: String,
    /// The time in seconds.
    pub now: i64,
    /// The time as it is kept with the last switch.
    pub created_at: String,
    /// The time as the names of backups show it.
    pub stamp: String,
    /// The time as the name of a set-aside snapshot shows it.
    pub repair_stamp: String,
}

/// A file that may be a backup of an account's login, and when it was changed.
#[derive(Debug)]
pub struct LoginBackup {
    pub path: String,
    pub login: Option<AuthFile>,
    pub modified_ns: i128,
}

/// A backup of a ChatGPT login of that account.
pub open spec fn backup_serves(backup: LoginBackup, key: Seq<char>) -> bool {
    match registry::usable_login(backup.path@, backup.login) {
        Some(login) => login.auth.auth_mode != Some("apikey"@) && accounts::account_key(login)
            == key,
        None => false,
    }
}

/// The position of the newest backup of an account; of several, the first.
pub open spec fn newest_backup(backups: Seq<LoginBackup>, key: Seq<char>) -> Option<int>
    decreases backups.len(),
{
    if backups.len() == 0 {
        None
    } else {
        let rest = newest_backup(backups.drop_last(), key);
        if backup_serves(backups.last(), key) && (rest matches Some(i) ==> backups[i].modified_ns
            < backups.last().modified_ns) {
            Some(backups.len() - 1)
        } else {
            rest
        }
    }
}

/// Whether a backup is of a ChatGPT login of that account.
fn serves(backup: &LoginBackup, key: &str) -> (r: bool)
    ensures
        r == backup_serves(*backup, key@),
{
    let login = match &backup.login {
        Some(login) => login,
        None => return false,
    };
    if !registry::is_json_named(backup.path.as_str()) || accounts::validate_auth_file(
        backup.path.as_str(),
        &login.auth,
    ).is_err() {
        return false;
    }
    let api = match &login.auth.auth_mode {
        Some(mode) => text::same_text(mode.as_str(), "apikey"),
        None => false,
    };
    !api && text::same_text(accounts::account_key_from_auth(login).as_str(), key)
}

pub proof fn lemma_newest(backups: Seq<LoginBackup>, key: Seq<char>)
    ensures
        newest_backup(backups, key) matches Some(i) ==> 0 <= i < backups.len() && backup_serves(
            backups[i],
            key,
        ),
    decreases backups.len(),
{
    if backups.len() > 0 {
        lemma_newest(backups.drop_last(), key);
    }
}

/// The newest backup of an account.
pub fn find_latest_backup_for_account(backups: &Vec<LoginBackup>, key: &str) -> (r: Option<usize>)
    ensures
        match r {
            Some(i) => i < backups@.len() && newest_backup(backups@, key@) == Some(i as int),
            None => newest_backup(backups@, key@) is None,
        },
{
    let mut best: Option<usize> = None;
    let mut i: usize = 0;
    while i < backups.len()
        invariant
            i <= backups@.len(),
            match best {
                Some(b) => b < i && newest_backup(backups@.take(i as int), key@) == Some(b as int),
                None => newest_backup(backups@.take(i as int), key@) is None,
            },
        decreases backups@.len() - i,
    {
        proof {
            let more = backups@.take(i + 1);
            assert(more.drop_last() =~= backups@.take(i as int));
            assert(more.last() == backups@[i as int]);
            if let Some(b) = best {
                assert(more[b as int] == backups@[b as int]);
            }
        }
        if serves(&backups[i], key) {
            let newer = match best {
                Some(b) => backups[b].modified_ns < backups[i].modified_ns,
                None => true,
            };
            if newer {
                best = Some(i);
            }
        }
        i += 1;
    }
    assert(backups@.take(backups@.len() as int) =~= backups@);
    best
}

/// A snapshot of another account than the registry says.
pub open spec fn mismatched(login: Login, key: Seq<char>) -> bool {
    login.auth.auth_mode != Some("apikey"@) && accounts::account_key(login) != key
}

/// Whether a login is of another account.
fn is_mismatched(login: &AuthFile, key: &str) -> (r: bool)
    ensures
        r == mismatched(login@, key@),
{
    let api = match &login.auth.auth_mode {
        Some(mode) => text::same_text(mode.as_str(), "apikey"),
        None => false,
    };
    !api && !text::same_text(accounts::account_key_from_auth(login).as_str(), key)
}

/// Whether the snapshot of an account is to be repaired: it is usable, and is
/// not of the account.
pub open spec fn to_repair(item: ItemFacts, login: Login) -> bool {
    accounts::auth_fault(item.snapshot_path, login.auth) is None && mismatched(
        login,
        item.account_key,
    )
}

/// Whether the snapshot of an account is to be repaired. Only then do its
/// backups matter.
pub fn needs_repair(item: &RegistryItem, login: &AuthFile) -> (r: bool)
    ensures
        r == to_repair(item@, login@),
{
    accounts::validate_auth_file(item.snapshot_path.as_str(), &login.auth).is_ok()
        && is_mismatched(login, item.account_key.as_str())
}

/// Where a snapshot that does not match is put aside.
pub open spec fn aside_path(backups_dir: Seq<char>, stamp: Seq<char>, key: Seq<char>) -> Seq<char> {
    paths::inside(
        backups_dir,
        stamp + "__mismatched-snapshot__"@ + accounts::file_text(key) + ".json"@,
    )
}

/// What puts a snapshot right that does not match its account: it is put
/// aside, and the newest backup of the account takes its place.
pub open spec fn repair_of(
    item: ItemFacts,
    login: Login,
    backups: Seq<LoginBackup>,
    backups_dir: Seq<char>,
    stamp: Seq<char>,
) -> Result<Seq<OpFacts>, Fault> {
    if !mismatched(login, item.account_key) {
        Ok(Seq::empty())
    } else {
        match newest_backup(backups, item.account_key) {
            None => Err(
                Fault::Config(
                    "Snapshot account mismatch: expected "@ + item.account_key
                        + ", and no matching backup was found to repair it"@,
                ),
            ),
            Some(i) => Ok(
                seq![
                    OpFacts::Copy {
                        from: item.snapshot_path,
                        to: aside_path(backups_dir, stamp, item.account_key),
                    },
                    OpFacts::Copy { from: backups[i].path@, to: item.snapshot_path },
                ],
            ),
        }
    }
}

/// Adds a copy to operations.
pub(crate) fn push_copy(ops: &mut Vec<AccountOp>, from: &str, to: &str)
    ensures
        ops_of(final(ops)@) == ops_of(old(ops)@).push(OpFacts::Copy { from: from@, to: to@ }),
{
    let ghost before = ops_of(ops@);
    ops.push(AccountOp::Copy { from: from.to_owned(), to: to.to_owned() });
    assert(ops_of(ops@) =~= before.push(OpFacts::Copy { from: from@, to: to@ }));
}

/// What puts a snapshot right that does not match its account.
pub fn ensure_snapshot_matches_account(
    item: &RegistryItem,
    login: &AuthFile,
    backups: &Vec<LoginBackup>,
    context: &SwitchContext,
) -> (r: Result<Vec<AccountOp>, AppError>)
    ensures
        match r {
            Ok(ops) => repair_of(
                item@,
                login@,
                backups@,
                context.backups_dir@,
                context.repair_stamp@,
            ) == Ok::<Seq<OpFacts>, Fault>(ops_of(ops@)),
            Err(error) => repair_of(
                item@,
                login@,
                backups@,
                context.backups_dir@,
                context.repair_stamp@,
            ) == Err::<Seq<OpFacts>, Fault>(error@),
        },
{
    let mut ops: Vec<AccountOp> = Vec::new();
    assert(ops_of(ops@) =~= Seq::<OpFacts>::empty());
    let key = item.account_key.as_str();
    if !is_mismatched(login, key) {
        return Ok(ops);
    }
    let i: usize = match find_latest_backup_for_account(backups, key) {
        Some(i) => i,
        None => {
            return Err(
                AppError::Config(
                    text::joined3(
                        "Snapshot account mismatch: expected ",
                        key,
                        ", and no matching backup was found to repair it",
                    ),
                ),
            );
        },
    };
    let name = text::joined3(
        context.repair_stamp.as_str(),
        "__mismatched-snapshot__",
        accounts::safe_file_name(key).as_str(),
    );
    let aside = paths::join_path(
        context.backups_dir.as_str(),
        text::joined(name.as_str(), ".json").as_str(),
    );
    push_copy(&mut ops, item.snapshot_path.as_str(), aside.as_str());
    push_copy(&mut ops, backups[i].path.as_str(), item.snapshot_path.as_str());
    assert(ops_of(ops@) =~= seq![
        OpFacts::Copy {
            from: item@.snapshot_path,
            to: aside_path(context.backups_dir@, context.repair_stamp@, item@.account_key),
        },
        OpFacts::Copy { from: backups@[i as int].path@, to: item@.snapshot_path },
    ]);
    Ok(ops)
}

/// The account that the name of a backup shows.
pub open spec fn backup_label(active: Option<Seq<char>>) -> Seq<char> {
    match active {
        Some(key) => if accounts::file_text(key).len() == 0 {
            "unknown"@
        } else {
            accounts::file_text(key)
        },
        None => "unknown"@,
    }
}

/// Where the auth file is backed up to.
pub open spec fn auth_backup_path(
    backups_dir: Seq<char>,
    stamp: Seq<char>,
    active: Option<Seq<char>>,
) -> Seq<char> {
    paths::inside(backups_dir, stamp + "__"@ + backup_label(active) + ".json"@)
}

/// Where the auth file is backed up to.
pub fn auth_backup_target(context: &SwitchContext, active: Option<&str>) -> (r: String)
    ensures
        r@ == auth_backup_path(context.backups_dir@, context.stamp@, json::opt_str(active)),
{
    let label = match active {
        Some(key) => {
            let name = accounts::safe_file_name(key);
            if name.as_str().is_empty() {
                "unknown".to_owned()
            } else {
                name
            }
        },
        None => "unknown".to_owned(),
    };
    let name = text::joined3(context.stamp.as_str(), "__", label.as_str());
    paths::join_path(
        context.backups_dir.as_str(),
        text::joined(name.as_str(), ".json").as_str(),
    )
}

/// The place of the active account in the registry.
pub open spec fn active_place(registry: RegistryFacts) -> Option<int> {
    match registry.active {
        Some(key) => registry::account_from(registry.items, key, 0),
        None => None,
    }
}

/// What keeps the current login in the snapshot of the active account. A
/// ChatGPT login of another account is not kept there.
pub open spec fn persist_of(
    registry: RegistryFacts,
    auth_path: Seq<char>,
    current: Result<Login, Fault>,
) -> Result<Seq<OpFacts>, Fault> {
    match active_place(registry) {
        None => Ok(Seq::empty()),
        Some(i) => match current {
            Err(fault) => Err(fault),
            Ok(login) => if login.auth.auth_mode == Some("chatgpt"@) && accounts::account_key(login)
                != registry.items[i].account_key {
                Ok(Seq::empty())
            } else {
                match accounts::auth_fault(auth_path, login.auth) {
                    Some(fault) => Err(fault),
                    None => Ok(
                        seq![
                            OpFacts::Copy {
                                from: auth_path,
                                to: registry.items[i].snapshot_path,
                            },
                        ],
                    ),
                }
            },
        },
    }
}

/// A login that was read, or why it was not.
pub open spec fn login_result(r: Result<AuthFile, AppError>) -> Result<Login, Fault> {
    match r {
        Ok(file) => Ok(file@),
        Err(error) => Err(error@),
    }
}

/// Adds what keeps the current login in the snapshot of the active account.
fn persist_current_auth(
    ops: &mut Vec<AccountOp>,
    registry: &Registry,
    auth_path: &str,
    current: Result<AuthFile, AppError>,
) -> (r: Result<(), AppError>)
    ensures
        match r {
            Ok(_) => persist_of(registry@, auth_path@, login_result(current)) is Ok && ops_of(
                final(ops)@,
            ) == ops_of(old(ops)@) + persist_of(registry@, auth_path@, login_result(current))->Ok_0,
            Err(error) => ops_of(final(ops)@) == ops_of(old(ops)@) && persist_of(
                registry@,
                auth_path@,
                login_result(current),
            ) == Err::<Seq<OpFacts>, Fault>(error@),
        },
{
    let ghost before = ops_of(ops@);
    assert(before + Seq::<OpFacts>::empty() =~= before);
    let key = match &registry.active_account_key {
        Some(key) => key.as_str(),
        None => return Ok(()),
    };
    let i: usize = match registry::find_account(&registry.items, key) {
        Some(i) => i,
        None => return Ok(()),
    };
    assert(registry@.items[i as int] == registry.items@[i as int]@);
    let login = match current {
        Ok(login) => login,
        Err(error) => return Err(error),
    };
    let chatgpt = match &login.auth.auth_mode {
        Some(mode) => text::same_text(mode.as_str(), "chatgpt"),
        None => false,
    };
    if chatgpt && !text::same_text(accounts::account_key_from_auth(&login).as_str(), key) {
        return Ok(());
    }
    match accounts::validate_auth_file(auth_path, &login.auth) {
        Ok(_) => {},
        Err(error) => return Err(error),
    }
    push_copy(ops, auth_path, registry.items[i].snapshot_path.as_str());
    assert(ops_of(ops@) =~= before + seq![
        OpFacts::Copy { from: auth_path@, to: registry@.items[i as int].snapshot_path },
    ]);
    Ok(())
}

/// Items of which those of an account were used just now.
pub open spec fn used_items(items: Seq<ItemFacts>, key: Seq<char>, now: i64) -> Seq<ItemFacts> {
    items.map_values(
        |item: ItemFacts|
            if item.account_key == key {
                ItemFacts { last_used_at: Some(now), ..item }
            } else {
                item
            },
    )
}

/// The registry after a switch.
pub open spec fn switched(registry: RegistryFacts, key: Seq<char>, now: i64) -> RegistryFacts {
    RegistryFacts {
        active: Some(key),
        updated_at: now,
        items: used_items(registry.items, key, now),
        ..registry
    }
}

/// The registry after a switch.
fn mark_switched(registry: Registry, key: &str, now: i64) -> (r: Registry)
    ensures
        r@ == switched(registry@, key@, now),
{
    let ghost wanted = used_items(registry@.items, key@, now);
    let ghost first = registry@.items;
    let mut items = registry.items;
    let mut i: usize = 0;
    while i < items.len()
        invariant
            i <= items@.len(),
            items@.len() == first.len(),
            wanted == used_items(first, key@, now),
            forall|k: int| 0 <= k < i ==> (#[trigger] items@[k])@ == wanted[k],
            forall|k: int| i <= k < items@.len() ==> (#[trigger] items@[k])@ == first[k],
        decreases items@.len() - i,
    {
        assert(items@[i as int]@ == first[i as int]);
        if text::same_text(items[i].account_key.as_str(), key) {
            items[i].last_used_at = Some(now);
        }
        assert(items@[i as int]@ == wanted[i as int]);
        i += 1;
    }
    assert(registry::items_of(items@) =~= wanted);
    Registry {
        active_account_key: Some(key.to_owned()),
        updated_at: now,
        items,
        ..registry
    }
}

/// A plan that fails after some operations.
pub open spec fn failed(ops: Seq<OpFacts>, fault: Fault) -> PlanFacts {
    PlanFacts { ops, outcome: Err(fault) }
}

/// The switch to the account at `i`, once its snapshot is right: the auth
/// file is backed up and kept in the snapshot of the active account, the
/// snapshot takes its place, and the registry and the last switch are noted.
pub open spec fn exchange(
    registry: RegistryFacts,
    i: int,
    current: Result<Login, Fault>,
    context: SwitchContext,
    done: Seq<OpFacts>,
) -> PlanFacts {
    let item = registry.items[i];
    let backup_path = auth_backup_path(context.backups_dir@, context.stamp@, registry.active);
    let saved = done.push(OpFacts::Copy { from: context.auth_path@, to: backup_path });
    match persist_of(registry, context.auth_path@, current) {
        Err(fault) => failed(saved, fault),
        Ok(kept) => PlanFacts {
            ops: (saved + kept).push(
                OpFacts::Copy { from: item.snapshot_path, to: context.auth_path@ },
            ).push(
                OpFacts::WriteRegistry(switched(registry, item.account_key, context.now)),
            ).push(
                OpFacts::WriteLatest(
                    LatestFacts {
                        previous: registry.active,
                        active: item.account_key,
                        backup_path,
                        created_at: context.created_at@,
                    },
                ),
            ),
            outcome: Ok(
                SwitchFacts {
                    previous: registry.active,
                    active: item.account_key,
                    backup_path,
                    restart_recommended: true,
                },
            ),
        },
    }
}

/// Whether an account is named.
pub fn check_account_key(account_key: &str) -> (r: Result<(), AppError>)
    ensures
        match r {
            Ok(_) => !text::blank(account_key@),
            Err(error) => text::blank(account_key@) && error@ == Fault::InvalidInput(
                "Missing accountKey."@,
            ),
        },
{
    if text::is_blank(account_key) {
        return Err(AppError::InvalidInput("Missing accountKey.".to_owned()));
    }
    Ok(())
}

/// The switch to an account. `target` is what was read of its snapshot, and
/// `current` what was read of the auth file, where there is one.
pub open spec fn switch_plan(
    key: Seq<char>,
    registry: RegistryFacts,
    target: Result<Login, Fault>,
    backups: Seq<LoginBackup>,
    current: Option<Result<Login, Fault>>,
    context: SwitchContext,
) -> PlanFacts {
    if text::blank(key) {
        failed(Seq::empty(), Fault::InvalidInput("Missing accountKey."@))
    } else {
        match registry::account_from(registry.items, key, 0) {
            None => failed(Seq::empty(), Fault::Config("Codex account not found: "@ + key)),
            Some(i) => match target {
                Err(fault) => failed(Seq::empty(), fault),
                Ok(login) => match accounts::auth_fault(
                    registry.items[i].snapshot_path,
                    login.auth,
                ) {
                    Some(fault) => failed(Seq::empty(), fault),
                    None => match repair_of(
                        registry.items[i],
                        login,
                        backups,
                        context.backups_dir@,
                        context.repair_stamp@,
                    ) {
                        Err(fault) => failed(Seq::empty(), fault),
                        Ok(repair) => match current {
                            None => failed(
                                repair,
                                Fault::Config(
                                    "Current Codex auth file does not exist: "@
                                        + context.auth_path@,
                                ),
                            ),
                            Some(current) => if registry.active == Some(key) {
                                PlanFacts {
                                    ops: repair,
                                    outcome: Ok(
                                        SwitchFacts {
                                            previous: registry.active,
                                            active: key,
                                            backup_path: ""@,
                                            restart_recommended: false,
                                        },
                                    ),
                                }
                            } else {
                                exchange(registry, i, current, context, repair)
                            },
                        },
                    },
                },
            },
        }
    }
}

/// A plan that fails after some operations.
fn fail_after(ops: Vec<AccountOp>, error: AppError) -> (r: SwitchPlan)
    ensures
        r@ == failed(ops_of(ops@), error@),
{
    SwitchPlan { ops, outcome: Err(error) }
}

/// A plan that fails before any operation.
fn fail(error: AppError) -> (r: SwitchPlan)
    ensures
        r@ == failed(Seq::empty(), error@),
{
    let ops: Vec<AccountOp> = Vec::new();
    assert(ops_of(ops@) =~= Seq::<OpFacts>::empty());
    SwitchPlan { ops, outcome: Err(error) }
}

fn copy_of(value: &Option<String>) -> (r: Option<String>)
    ensures
        text::opt_text(r) == text::opt_text(*value),
{
    match value {
        Some(text) => Some(text.as_str().to_owned()),
        None => None,
    }
}

/// The switch to the account at `i`, once its snapshot is right.
fn exchange_login(
    registry: Registry,
    i: usize,
    current: Result<AuthFile, AppError>,
    context: &SwitchContext,
    done: Vec<AccountOp>,
) -> (r: SwitchPlan)
    requires
        i < registry.items@.len(),
    ensures
        r@ == exchange(registry@, i as int, login_result(current), *context, ops_of(done@)),
{
    let ghost facts = registry@;
    assert(facts.items[i as int] == registry.items@[i as int]@);
    let key = registry.items[i].account_key.as_str().to_owned();
    let snapshot_path = registry.items[i].snapshot_path.as_str().to_owned();
    let previous = copy_of(&registry.active_account_key);
    let auth_path = context.auth_path.as_str();
    let backup_path = auth_backup_target(
        context,
        registry::borrowed(&registry.active_account_key),
    );
    let mut ops = done;
    push_copy(&mut ops, auth_path, backup_path.as_str());
    let ghost saved = ops_of(ops@);
    match persist_current_auth(&mut ops, &registry, auth_path, current) {
        Ok(_) => {},
        Err(error) => return fail_after(ops, error),
    }
    push_copy(&mut ops, snapshot_path.as_str(), auth_path);
    let noted = mark_switched(registry, key.as_str(), context.now);
    let ghost written = noted@;
    let ghost copied = ops_of(ops@);
    ops.push(AccountOp::WriteRegistry(noted));
    assert(ops_of(ops@) =~= copied.push(OpFacts::WriteRegistry(written)));
    let latest = LatestSwitch {
        previous_account_key: copy_of(&previous),
        active_account_key: key.as_str().to_owned(),
        backup_path: backup_path.as_str().to_owned(),
        created_at: context.created_at.as_str().to_owned(),
    };
    let ghost last = latest@;
    let ghost registered = ops_of(ops@);
    ops.push(AccountOp::WriteLatest(latest));
    assert(ops_of(ops@) =~= registered.push(OpFacts::WriteLatest(last)));
    SwitchPlan {
        ops,
        outcome: Ok(
            CodexAccountSwitchResult {
                previous_account_key: previous,
                active_account_key: key,
                backup_path,
                restart_recommended: true,
            },
        ),
    }
}

/// The switch to an account. `target` is what was read of its snapshot,
/// `backups` are the files that may put the snapshot right, and `current` is
/// what was read of the auth file, where there is one.
pub fn switch_account(
    account_key: &str,
    registry: Registry,
    target: Result<AuthFile, AppError>,
    backups: &Vec<LoginBackup>,
    current: Option<Result<AuthFile, AppError>>,
    context: &SwitchContext,
) -> (r: SwitchPlan)
    ensures
        r@ == switch_plan(
            account_key@,
            registry@,
            login_result(target),
            backups@,
            match current {
                Some(read) => Some(login_result(read)),
                None => None,
            },
            *context,
        ),
{
    match check_account_key(account_key) {
        Ok(_) => {},
        Err(error) => return fail(error),
    }
    let i: usize = match registry::find_account(&registry.items, account_key) {
        Some(i) => i,
        None => return fail(
            AppError::Config(text::joined("Codex account not found: ", account_key)),
        ),
    };
    assert(registry@.items[i as int] == registry.items@[i as int]@);
    let login = match target {
        Ok(login) => login,
        Err(error) => return fail(error),
    };
    match accounts::validate_auth_file(registry.items[i].snapshot_path.as_str(), &login.auth) {
        Ok(_) => {},
        Err(error) => return fail(error),
    }
    let repair = match ensure_snapshot_matches_account(
        &registry.items[i],
        &login,
        backups,
        context,
    ) {
        Ok(ops) => ops,
        Err(error) => return fail(error),
    };
    let current = match current {
        Some(current) => current,
        None => return fail_after(
            repair,
            AppError::Config(
                text::joined(
                    "Current Codex auth file does not exist: ",
                    context.auth_path.as_str(),
                ),
            ),
        ),
    };
    let active = match &registry.active_account_key {
        Some(key) => text::same_text(key.as_str(), account_key),
        None => false,
    };
    if active {
        return SwitchPlan {
            ops: repair,
            outcome: Ok(
                CodexAccountSwitchResult {
                    previous_account_key: registry.active_account_key,
                    active_account_key: account_key.to_owned(),
                    backup_path: "".to_owned(),
                    restart_recommended: false,
                },
            ),
        };
    }
    exchange_login(registry, i, current, context, repair)
}

/// Going back to before the last switch. `backup` is what was read of the
/// login that the switch backed up.
pub open spec fn rollback_plan(
    latest: LatestFacts,
    backup: Result<Login, Fault>,
    registry: RegistryFacts,
    context: SwitchContext,
) -> PlanFacts {
    match backup {
        Err(fault) => failed(Seq::empty(), fault),
        Ok(login) => match accounts::auth_fault(latest.backup_path, login.auth) {
            Some(fault) => failed(Seq::empty(), fault),
            None => {
                let backup_path = auth_backup_path(
                    context.backups_dir@,
                    context.stamp@,
                    registry.active,
                );
                PlanFacts {
                    ops: seq![
                        OpFacts::Copy { from: context.auth_path@, to: backup_path },
                        OpFacts::Copy { from: latest.backup_path, to: context.auth_path@ },
                        OpFacts::WriteRegistry(
                            RegistryFacts {
                                active: latest.previous,
                                updated_at: context.now,
                                ..registry
                            },
                        ),
                    ],
                    outcome: Ok(
                        SwitchFacts {
                            previous: Some(latest.active),
                            active: accounts::or_else(latest.previous, ""@),
                            backup_path,
                            restart_recommended: true,
                        },
                    ),
                }
            },
        },
    }
}

/// Going back to before the last switch.
pub fn rollback_last_switch(
    latest: LatestSwitch,
    backup: Result<AuthFile, AppError>,
    registry: Registry,
    context: &SwitchContext,
) -> (r: SwitchPlan)
    ensures
        r@ == rollback_plan(latest@, login_result(backup), registry@, *context),
{
    let login = match backup {
        Ok(login) => login,
        Err(error) => return fail(error),
    };
    match accounts::validate_auth_file(latest.backup_path.as_str(), &login.auth) {
        Ok(_) => {},
        Err(error) => return fail(error),
    }
    let backup_path = auth_backup_target(
        context,
        registry::borrowed(&registry.active_account_key),
    );
    let mut ops: Vec<AccountOp> = Vec::new();
    assert(ops_of(ops@) =~= Seq::<OpFacts>::empty());
    push_copy(&mut ops, context.auth_path.as_str(), backup_path.as_str());
    push_copy(&mut ops, latest.backup_path.as_str(), context.auth_path.as_str());
    let noted = Registry {
        active_account_key: copy_of(&latest.previous_account_key),
        updated_at: context.now,
        ..registry
    };
    let ghost written = noted@;
    let ghost copied = ops_of(ops@);
    ops.push(AccountOp::WriteRegistry(noted));
    assert(ops_of(ops@) =~= copied.push(OpFacts::WriteRegistry(written)));
    assert(ops_of(ops@) =~= rollback_plan(
        latest@,
        Ok(login@),
        registry@,
        *context,
    ).ops);
    let active = match latest.previous_account_key {
        Some(key) => key,
        None => "".to_owned(),
    };
    SwitchPlan {
        ops,
        outcome: Ok(
            CodexAccountSwitchResult {
                previous_account_key: Some(latest.active_account_key),
                active_account_key: active,
                backup_path,
                restart_recommended: true,
            },
        ),
    }
}

} // verus!
