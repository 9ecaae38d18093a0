//! What a switch between Codex accounts, and going back after it, does to the
//! files.

use vstd::prelude::*;
use crate::accounts;
use crate::accounts::Login;
use crate::error::Fault;
use crate::paths;
use crate::registry;
use crate::registry::{ItemFacts, RegistryFacts};
use crate::switch;
use crate::switch::{LatestFacts, LoginBackup, OpFacts, PlanFacts, SwitchContext, SwitchFacts};
use crate::text;

verus! {

/// The files after an operation.
pub open spec fn after_op(files: Map<Seq<char>, Seq<u8>>, op: OpFacts) -> Map<Seq<char>, Seq<u8>> {
    match op {
        OpFacts::Copy { from, to } => files.insert(to, files[from]),
        _ => files,
    }
}

/// The files after operations, one by one.
pub open spec fn after_ops(files: Map<Seq<char>, Seq<u8>>, ops: Seq<OpFacts>) -> Map<
    Seq<char>,
    Seq<u8>,
>
    decreases ops.len(),
{
    if ops.len() == 0 {
        files
    } else {
        after_op(after_ops(files, ops.drop_last()), ops.last())
    }
}

proof fn lemma_after_push(files: Map<Seq<char>, Seq<u8>>, ops: Seq<OpFacts>, op: OpFacts)
    ensures
        after_ops(files, ops.push(op)) == after_op(after_ops(files, ops), op),
{
    assert(ops.push(op).drop_last() =~= ops);
}

/// Operations that do not write a file.
pub open spec fn leaves(ops: Seq<OpFacts>, path: Seq<char>) -> bool {
    forall|k: int| 0 <= k < ops.len() ==> (#[trigger] ops[k] matches OpFacts::Copy { to, .. } ==> to
        != path)
}

/// A file that no operation writes stays as it is.
pub proof fn law_unwritten_files_stay(
    files: Map<Seq<char>, Seq<u8>>,
    ops: Seq<OpFacts>,
    path: Seq<char>,
)
    requires
        leaves(ops, path),
    ensures
        after_ops(files, ops)[path] == files[path],
        after_ops(files, ops).contains_key(path) == files.contains_key(path),
    decreases ops.len(),
{
    if ops.len() > 0 {
        assert(ops.last() == ops[ops.len() - 1]);
        assert(leaves(ops.drop_last(), path)) by {
            assert forall|k: int| 0 <= k < ops.drop_last().len() implies (
            #[trigger] ops.drop_last()[k] matches OpFacts::Copy { to, .. } ==> to != path) by {
                assert(ops.drop_last()[k] == ops[k]);
            }
        }
        law_unwritten_files_stay(files, ops.drop_last(), path);
    }
}

/// The backup of a switch is neither the auth file nor the snapshot of the
/// account at place `i`, and the snapshot of the active account is none of the
/// three.
pub open spec fn apart(registry: RegistryFacts, i: int, context: SwitchContext) -> bool {
    let auth = context.auth_path@;
    let backup = switch::auth_backup_path(context.backups_dir@, context.stamp@, registry.active);
    let target = registry.items[i].snapshot_path;
    &&& backup != auth
    &&& target != backup
    &&& switch::active_place(registry) matches Some(a) ==> {
        &&& registry.items[a].snapshot_path != target
        &&& registry.items[a].snapshot_path != backup
        &&& registry.items[a].snapshot_path != auth
    }
}

/// A switch keeps the login that was used in a backup and, where it is that of
/// the active account, in the snapshot of this account; then it puts the login
/// of the other account in its place and notes both accounts for going back.
/// `done` is what a repair did before.
pub proof fn law_switch_exchanges_logins(
    registry: RegistryFacts,
    i: int,
    current: Result<Login, Fault>,
    context: SwitchContext,
    done: Seq<OpFacts>,
    files: Map<Seq<char>, Seq<u8>>,
)
    requires
        0 <= i < registry.items.len(),
        switch::exchange(registry, i, current, context, done).outcome is Ok,
        apart(registry, i, context),
    ensures
        ({
            let plan = switch::exchange(registry, i, current, context, done);
            let mid = after_ops(files, done);
            let after = after_ops(files, plan.ops);
            let auth = context.auth_path@;
            let item = registry.items[i];
            let backup = switch::auth_backup_path(
                context.backups_dir@,
                context.stamp@,
                registry.active,
            );
            &&& after[auth] == mid[item.snapshot_path]
            &&& after[backup] == mid[auth]
            &&& after[item.snapshot_path] == mid[item.snapshot_path]
            &&& switch::active_place(registry) matches Some(a) ==> current matches Ok(login)
                && after[registry.items[a].snapshot_path] == if login.auth.auth_mode == Some(
                "chatgpt"@,
            ) && accounts::account_key(login) != registry.items[a].account_key {
                mid[registry.items[a].snapshot_path]
            } else {
                mid[auth]
            }
            &&& plan.ops.last() == OpFacts::WriteLatest(
                LatestFacts {
                    previous: registry.active,
                    active: item.account_key,
                    backup_path: backup,
                    created_at: context.created_at@,
                },
            )
            &&& plan.ops[plan.ops.len() - 2] == OpFacts::WriteRegistry(
                switch::switched(registry, item.account_key, context.now),
            )
        }),
{
    let auth = context.auth_path@;
    let item = registry.items[i];
    let backup = switch::auth_backup_path(context.backups_dir@, context.stamp@, registry.active);
    let save = OpFacts::Copy { from: auth, to: backup };
    let load = OpFacts::Copy { from: item.snapshot_path, to: auth };
    let noted = OpFacts::WriteRegistry(switch::switched(registry, item.account_key, context.now));
    let latest = OpFacts::WriteLatest(
        LatestFacts {
            previous: registry.active,
            active: item.account_key,
            backup_path: backup,
            created_at: context.created_at@,
        },
    );
    let saved = done.push(save);
    let kept = switch::persist_of(registry, auth, current)->Ok_0;
    lemma_after_push(files, done, save);
    if kept.len() == 0 {
        assert(saved + kept =~= saved);
    } else {
        assert(saved + kept =~= saved.push(kept[0]));
        lemma_after_push(files, saved, kept[0]);
    }
    lemma_after_push(files, saved + kept, load);
    lemma_after_push(files, (saved + kept).push(load), noted);
    lemma_after_push(files, (saved + kept).push(load).push(noted), latest);
}

/// What a switch keeps of the auth file is in the backup, whatever files are
/// one, unless the backup is the auth file itself.
proof fn lemma_backup_is_kept(
    registry: RegistryFacts,
    i: int,
    current: Result<Login, Fault>,
    context: SwitchContext,
    done: Seq<OpFacts>,
    files: Map<Seq<char>, Seq<u8>>,
)
    requires
        switch::exchange(registry, i, current, context, done).outcome is Ok,
        switch::auth_backup_path(context.backups_dir@, context.stamp@, registry.active)
            != context.auth_path@,
    ensures
        after_ops(files, switch::exchange(registry, i, current, context, done).ops)[
            switch::auth_backup_path(context.backups_dir@, context.stamp@, registry.active)
        ] == after_ops(files, done)[context.auth_path@],
{
    let auth = context.auth_path@;
    let item = registry.items[i];
    let backup = switch::auth_backup_path(context.backups_dir@, context.stamp@, registry.active);
    let save = OpFacts::Copy { from: auth, to: backup };
    let load = OpFacts::Copy { from: item.snapshot_path, to: auth };
    let ops = switch::exchange(registry, i, current, context, done).ops;
    let saved = done.push(save);
    let kept = switch::persist_of(registry, auth, current)->Ok_0;
    lemma_after_push(files, done, save);
    if kept.len() == 0 {
        assert(saved + kept =~= saved);
    } else {
        assert(saved + kept =~= saved.push(kept[0]));
        lemma_after_push(files, saved, kept[0]);
    }
    let loaded = (saved + kept).push(load);
    lemma_after_push(files, saved + kept, load);
    lemma_after_push(files, loaded, ops[ops.len() - 2]);
    lemma_after_push(files, loaded.push(ops[ops.len() - 2]), ops.last());
}

/// Going back after a switch succeeds where the login that was used before it
/// was valid: it puts that login in place, keeps the one that was used until
/// then in a backup, makes the account active that was active before the
/// switch, and reports all that. What is read of the switch's backup is what
/// was read of the auth file, whose bytes it has. Neither the repair nor one of
/// the two backups may write over the auth file, nor the second backup over
/// the first.
pub proof fn law_rollback_undoes_switch(
    key: Seq<char>,
    registry: RegistryFacts,
    target: Login,
    backups: Seq<LoginBackup>,
    current: Login,
    context: SwitchContext,
    files: Map<Seq<char>, Seq<u8>>,
    later: RegistryFacts,
    later_context: SwitchContext,
)
    requires
        switch::switch_plan(
            key,
            registry,
            Ok(target),
            backups,
            Some(Ok(current)),
            context,
        ).outcome matches Ok(report) && report.restart_recommended,
        accounts::auth_fault(context.auth_path@, current.auth) is None,
        later_context.auth_path@ == context.auth_path@,
        ({
            let auth = context.auth_path@;
            let item = registry.items[registry::account_from(registry.items, key, 0)->0];
            let saved = switch::auth_backup_path(
                context.backups_dir@,
                context.stamp@,
                registry.active,
            );
            let kept = switch::auth_backup_path(
                later_context.backups_dir@,
                later_context.stamp@,
                later.active,
            );
            &&& saved != auth
            &&& kept != auth
            &&& kept != saved
            &&& leaves(
                switch::repair_of(
                    item,
                    target,
                    backups,
                    context.backups_dir@,
                    context.repair_stamp@,
                )->Ok_0,
                auth,
            )
        }),
    ensures
        ({
            let auth = context.auth_path@;
            let switching = switch::switch_plan(
                key,
                registry,
                Ok(target),
                backups,
                Some(Ok(current)),
                context,
            );
            let switched_files = after_ops(files, switching.ops);
            let latest = switching.ops.last()->WriteLatest_0;
            let plan = switch::rollback_plan(latest, Ok(current), later, later_context);
            let restored = after_ops(switched_files, plan.ops);
            &&& switching.ops.last() is WriteLatest
            &&& switched_files[latest.backup_path] == files[auth]
            &&& plan.outcome matches Ok(report) && {
                &&& restored[auth] == files[auth]
                &&& restored[report.backup_path] == switched_files[auth]
                &&& plan.ops.last() == OpFacts::WriteRegistry(
                    RegistryFacts {
                        active: registry.active,
                        updated_at: later_context.now,
                        ..later
                    },
                )
                &&& report.previous == Some(key)
                &&& report.active == accounts::or_else(registry.active, ""@)
                &&& report.restart_recommended
            }
        }),
{
    registry::lemma_account_from(registry.items, key, 0);
    let i = registry::account_from(registry.items, key, 0)->0;
    let done = switch::repair_of(
        registry.items[i],
        target,
        backups,
        context.backups_dir@,
        context.repair_stamp@,
    )->Ok_0;
    lemma_backup_is_kept(registry, i, Ok(current), context, done, files);
    law_unwritten_files_stay(files, done, context.auth_path@);
    let switching = switch::exchange(registry, i, Ok(current), context, done);
    let switched_files = after_ops(files, switching.ops);
    let latest = switching.ops.last()->WriteLatest_0;
    let plan = switch::rollback_plan(latest, Ok(current), later, later_context);
    let none = Seq::<OpFacts>::empty();
    assert(plan.ops =~= none.push(plan.ops[0]).push(plan.ops[1]).push(plan.ops[2]));
    lemma_after_push(switched_files, none, plan.ops[0]);
    lemma_after_push(switched_files, none.push(plan.ops[0]), plan.ops[1]);
    lemma_after_push(switched_files, none.push(plan.ops[0]).push(plan.ops[1]), plan.ops[2]);
}

/// The backup that a repair uses is of the account, no backup of the account is
/// newer, and none that is as new comes before it. There is none where no
/// backup is of the account.
pub proof fn law_newest_backup_is_taken(backups: Seq<LoginBackup>, key: Seq<char>, k: int)
    requires
        0 <= k < backups.len(),
        switch::backup_serves(backups[k], key),
    ensures
        switch::newest_backup(backups, key) matches Some(i) && {
            &&& 0 <= i < backups.len()
            &&& switch::backup_serves(backups[i], key)
            &&& backups[k].modified_ns <= backups[i].modified_ns
            &&& backups[k].modified_ns == backups[i].modified_ns ==> i <= k
        },
    decreases backups.len(),
{
    switch::lemma_newest(backups, key);
    let fewer = backups.drop_last();
    switch::lemma_newest(fewer, key);
    if k < fewer.len() {
        assert(fewer[k] == backups[k]);
        law_newest_backup_is_taken(fewer, key, k);
    }
}

/// The backups of logins matter to a switch only where the snapshot of its
/// account is to be repaired.
pub proof fn law_backups_serve_repairs_only(
    key: Seq<char>,
    registry: RegistryFacts,
    target: Result<Login, Fault>,
    backups: Seq<LoginBackup>,
    others: Seq<LoginBackup>,
    current: Option<Result<Login, Fault>>,
    context: SwitchContext,
)
    requires
        registry::account_from(registry.items, key, 0) matches Some(i) ==> (target matches Ok(login)
            ==> !switch::to_repair(registry.items[i], login)),
    ensures
        switch::switch_plan(key, registry, target, backups, current, context)
            == switch::switch_plan(key, registry, target, others, current, context),
{
}

/// A snapshot that does not match its account is not lost: it is put aside,
/// and a backup of the account takes its place. No other file is written.
pub proof fn law_repair_keeps_the_snapshot(
    item: ItemFacts,
    login: Login,
    backups: Seq<LoginBackup>,
    backups_dir: Seq<char>,
    stamp: Seq<char>,
    files: Map<Seq<char>, Seq<u8>>,
)
    requires
        switch::mismatched(login, item.account_key),
        switch::repair_of(item, login, backups, backups_dir, stamp) is Ok,
        switch::aside_path(backups_dir, stamp, item.account_key) != item.snapshot_path,
        switch::newest_backup(backups, item.account_key) matches Some(i) ==> backups[i].path@
            != switch::aside_path(backups_dir, stamp, item.account_key),
    ensures
        ({
            let after = after_ops(
                files,
                switch::repair_of(item, login, backups, backups_dir, stamp)->Ok_0,
            );
            let i = switch::newest_backup(backups, item.account_key)->0;
            &&& switch::backup_serves(backups[i], item.account_key)
            &&& after[item.snapshot_path] == files[backups[i].path@]
            &&& after[switch::aside_path(backups_dir, stamp, item.account_key)]
                == files[item.snapshot_path]
            &&& forall|path: Seq<char>|
                path != item.snapshot_path && path != switch::aside_path(
                    backups_dir,
                    stamp,
                    item.account_key,
                ) ==> #[trigger] leaves(
                    switch::repair_of(item, login, backups, backups_dir, stamp)->Ok_0,
                    path,
                )
        }),
{
    switch::lemma_newest(backups, item.account_key);
    let ops = switch::repair_of(item, login, backups, backups_dir, stamp)->Ok_0;
    let none = Seq::<OpFacts>::empty();
    assert(ops =~= none.push(ops[0]).push(ops[1]));
    lemma_after_push(files, none, ops[0]);
    lemma_after_push(files, none.push(ops[0]), ops[1]);
    assert(after_ops(files, none) == files);
}

/// A switch that succeeds and is no switch to the account in use puts a login
/// of the account in place: that of its snapshot, or of its newest backup where
/// the snapshot was not its own. The login that was used is in the backup that
/// the report names, and the account is noted as the active one.
pub proof fn law_switch_puts_the_account_in_use(
    key: Seq<char>,
    registry: RegistryFacts,
    login: Login,
    backups: Seq<LoginBackup>,
    current: Result<Login, Fault>,
    context: SwitchContext,
    files: Map<Seq<char>, Seq<u8>>,
)
    requires
        registry.active != Some(key),
        switch::switch_plan(key, registry, Ok(login), backups, Some(current), context).outcome is Ok,
        ({
            let i = registry::account_from(registry.items, key, 0)->0;
            let item = registry.items[i];
            let aside = switch::aside_path(
                context.backups_dir@,
                context.repair_stamp@,
                item.account_key,
            );
            &&& apart(registry, i, context)
            &&& switch::mismatched(login, item.account_key) ==> {
                &&& aside != item.snapshot_path
                &&& aside != context.auth_path@
                &&& item.snapshot_path != context.auth_path@
                &&& switch::newest_backup(backups, item.account_key) matches Some(b)
                    ==> backups[b].path@ != aside
            }
        }),
    ensures
        ({
            let plan = switch::switch_plan(
                key,
                registry,
                Ok(login),
                backups,
                Some(current),
                context,
            );
            let i = registry::account_from(registry.items, key, 0)->0;
            let item = registry.items[i];
            let b = switch::newest_backup(backups, item.account_key)->0;
            let after = after_ops(files, plan.ops);
            let source = if switch::mismatched(login, item.account_key) {
                backups[b].path@
            } else {
                item.snapshot_path
            };
            &&& 0 <= i < registry.items.len()
            &&& item.account_key == key
            &&& switch::mismatched(login, key) ==> switch::backup_serves(backups[b], key)
            &&& after[context.auth_path@] == files[source]
            &&& after[plan.outcome->Ok_0.backup_path] == files[context.auth_path@]
            &&& plan.outcome->Ok_0.previous == registry.active
            &&& plan.outcome->Ok_0.active == key
            &&& plan.outcome->Ok_0.restart_recommended
            &&& plan.ops[plan.ops.len() - 2] == OpFacts::WriteRegistry(
                switch::switched(registry, key, context.now),
            )
        }),
{
    registry::lemma_account_from(registry.items, key, 0);
    let i = registry::account_from(registry.items, key, 0)->0;
    let item = registry.items[i];
    let repair = switch::repair_of(
        item,
        login,
        backups,
        context.backups_dir@,
        context.repair_stamp@,
    )->Ok_0;
    law_switch_exchanges_logins(registry, i, current, context, repair, files);
    if switch::mismatched(login, item.account_key) {
        law_repair_keeps_the_snapshot(
            item,
            login,
            backups,
            context.backups_dir@,
            context.repair_stamp@,
            files,
        );
        assert(leaves(repair, context.auth_path@));
    }
    law_unwritten_files_stay(files, repair, context.auth_path@);
}

/// A switch is refused, with nothing done, where no account is named, where the
/// registry has no such account, where its snapshot cannot be read or used, and
/// where it is to be repaired and no backup of the account is there.
pub proof fn law_switches_that_are_refused(
    key: Seq<char>,
    registry: RegistryFacts,
    target: Result<Login, Fault>,
    backups: Seq<LoginBackup>,
    current: Option<Result<Login, Fault>>,
    context: SwitchContext,
    i: int,
)
    ensures
        ({
            let plan = switch::switch_plan(key, registry, target, backups, current, context);
            let known = 0 <= i < registry.items.len() && registry.items[i].account_key == key
                && forall|k: int|
                0 <= k < i ==> (#[trigger] registry.items[k]).account_key != key;
            let path = registry.items[i].snapshot_path;
            &&& text::blank(key) ==> plan.ops.len() == 0 && plan.outcome == Err::<
                SwitchFacts,
                Fault,
            >(Fault::InvalidInput("Missing accountKey."@))
            &&& !text::blank(key) && (forall|k: int|
                0 <= k < registry.items.len() ==> (#[trigger] registry.items[k]).account_key != key)
                ==> plan.ops.len() == 0 && plan.outcome == Err::<SwitchFacts, Fault>(
                Fault::Config("Codex account not found: "@ + key),
            )
            &&& !text::blank(key) && known ==> match target {
                Err(fault) => plan.ops.len() == 0 && plan.outcome == Err::<SwitchFacts, Fault>(
                    fault,
                ),
                Ok(login) => {
                    &&& accounts::auth_fault(path, login.auth) matches Some(fault)
                        ==> plan.ops.len() == 0 && plan.outcome == Err::<SwitchFacts, Fault>(fault)
                    &&& accounts::auth_fault(path, login.auth) is None && login.auth.auth_mode
                        != Some("apikey"@) && accounts::account_key(login) != key && (forall|b: int|
                        0 <= b < backups.len() ==> !switch::backup_serves(
                            #[trigger] backups[b],
                            key,
                        )) ==> plan.ops.len() == 0 && plan.outcome == Err::<SwitchFacts, Fault>(
                        Fault::Config(
                            "Snapshot account mismatch: expected "@ + key
                                + ", and no matching backup was found to repair it"@,
                        ),
                    )
                },
            }
        }),
{
    registry::lemma_account_from(registry.items, key, 0);
    if forall|b: int|
        0 <= b < backups.len() ==> !switch::backup_serves(#[trigger] backups[b], key) {
        switch::lemma_newest(backups, key);
    }
}

/// A switch to another account succeeds where its snapshot is usable and its
/// own, and the auth file holds a login that can be used.
pub proof fn law_switch_succeeds(
    key: Seq<char>,
    registry: RegistryFacts,
    target: Login,
    backups: Seq<LoginBackup>,
    current: Login,
    context: SwitchContext,
    i: int,
)
    requires
        !text::blank(key),
        registry.active != Some(key),
        0 <= i < registry.items.len(),
        registry.items[i].account_key == key,
        forall|k: int| 0 <= k < i ==> (#[trigger] registry.items[k]).account_key != key,
        accounts::auth_fault(registry.items[i].snapshot_path, target.auth) is None,
        target.auth.auth_mode == Some("apikey"@) || accounts::account_key(target) == key,
        accounts::auth_fault(context.auth_path@, current.auth) is None,
    ensures
        ({
            let plan = switch::switch_plan(
                key,
                registry,
                Ok(target),
                backups,
                Some(Ok(current)),
                context,
            );
            &&& plan.outcome matches Ok(report) && {
                &&& report.previous == registry.active
                &&& report.active == key
                &&& report.restart_recommended
                &&& report.backup_path == switch::auth_backup_path(
                    context.backups_dir@,
                    context.stamp@,
                    registry.active,
                )
            }
            &&& plan.ops[0] == OpFacts::Copy {
                from: context.auth_path@,
                to: switch::auth_backup_path(
                    context.backups_dir@,
                    context.stamp@,
                    registry.active,
                ),
            }
            &&& plan.ops[plan.ops.len() - 3] == OpFacts::Copy {
                from: registry.items[i].snapshot_path,
                to: context.auth_path@,
            }
        }),
{
    registry::lemma_account_from(registry.items, key, 0);
}

/// A switch to the account in use changes nothing but a snapshot that is not its
/// own, backs nothing up, and asks for no restart. Without an auth file no
/// switch goes on.
pub proof fn law_switch_to_the_account_in_use(
    key: Seq<char>,
    registry: RegistryFacts,
    target: Login,
    backups: Seq<LoginBackup>,
    current: Result<Login, Fault>,
    context: SwitchContext,
    i: int,
)
    requires
        !text::blank(key),
        0 <= i < registry.items.len(),
        registry.items[i].account_key == key,
        forall|k: int| 0 <= k < i ==> (#[trigger] registry.items[k]).account_key != key,
        accounts::auth_fault(registry.items[i].snapshot_path, target.auth) is None,
        target.auth.auth_mode == Some("apikey"@) || accounts::account_key(target) == key,
    ensures
        registry.active == Some(key) ==> switch::switch_plan(
            key,
            registry,
            Ok(target),
            backups,
            Some(current),
            context,
        ) == (PlanFacts {
            ops: Seq::empty(),
            outcome: Ok(
                SwitchFacts {
                    previous: Some(key),
                    active: key,
                    backup_path: ""@,
                    restart_recommended: false,
                },
            ),
        }),
        ({
            let plan = switch::switch_plan(key, registry, Ok(target), backups, None, context);
            plan.ops.len() == 0 && plan.outcome == Err::<SwitchFacts, Fault>(
                Fault::Config("Current Codex auth file does not exist: "@ + context.auth_path@),
            )
        }),
{
    registry::lemma_account_from(registry.items, key, 0);
}

/// The login in use is kept in the snapshot of the active account, unless it is
/// a ChatGPT login of another account, or there is no active account; a login
/// that cannot be read or used stops the switch after the backup.
pub proof fn law_login_in_use_is_kept(
    registry: RegistryFacts,
    auth_path: Seq<char>,
    current: Result<Login, Fault>,
    key: Seq<char>,
    i: int,
)
    ensures
        registry.active is None ==> switch::persist_of(registry, auth_path, current) == Ok::<
            Seq<OpFacts>,
            Fault,
        >(Seq::empty()),
        registry.active == Some(key) && 0 <= i < registry.items.len()
            && registry.items[i].account_key == key && (forall|k: int|
            0 <= k < i ==> (#[trigger] registry.items[k]).account_key != key) ==> match current {
            Err(fault) => switch::persist_of(registry, auth_path, current) == Err::<
                Seq<OpFacts>,
                Fault,
            >(fault),
            Ok(login) => {
                let other = login.auth.auth_mode == Some("chatgpt"@) && accounts::account_key(login)
                    != key;
                let fault = accounts::auth_fault(auth_path, login.auth);
                &&& other ==> switch::persist_of(registry, auth_path, current) == Ok::<
                    Seq<OpFacts>,
                    Fault,
                >(Seq::empty())
                &&& !other && fault is Some ==> switch::persist_of(registry, auth_path, current)
                    == Err::<Seq<OpFacts>, Fault>(fault->0)
                &&& !other && fault is None ==> switch::persist_of(registry, auth_path, current)
                    == Ok::<Seq<OpFacts>, Fault>(
                    seq![
                        OpFacts::Copy { from: auth_path, to: registry.items[i].snapshot_path },
                    ],
                )
            },
        },
{
    registry::lemma_account_from(registry.items, key, 0);
}

/// After a switch the account is the active one and was used just now; nothing
/// else of any account, and nothing else of the registry but its time, changes.
pub proof fn law_registry_after_a_switch(registry: RegistryFacts, key: Seq<char>, now: i64, k: int)
    ensures
        ({
            let after = switch::switched(registry, key, now);
            &&& after.active == Some(key)
            &&& after.updated_at == now
            &&& after.schema_version == registry.schema_version
            &&& after.extra == registry.extra
            &&& after.items.len() == registry.items.len()
            &&& 0 <= k < registry.items.len() && registry.items[k].account_key != key
                ==> after.items[k] == registry.items[k]
            &&& 0 <= k < registry.items.len() && registry.items[k].account_key == key
                ==> after.items[k].last_used_at == Some(now) && after.items[k] == (ItemFacts {
                last_used_at: Some(now),
                ..registry.items[k]
            })
        }),
{
}

/// A snapshot is not its account's own where it is no API login and its key is
/// another one; a file serves as a backup of an account where it is a usable
/// login of it that is no API login.
pub proof fn law_logins_of_an_account(login: Login, backup: LoginBackup, key: Seq<char>)
    ensures
        switch::mismatched(login, key) <==> login.auth.auth_mode != Some("apikey"@)
            && accounts::account_key(login) != key,
        switch::backup_serves(backup, key) <==> (registry::usable_login(backup.path@, backup.login) matches Some(
            own,
        ) && own.auth.auth_mode != Some("apikey"@) && accounts::account_key(own) == key),
{
}

/// Backups are named by their time and the account whose login they hold.
pub proof fn law_names_of_login_backups(
    backups_dir: Seq<char>,
    stamp: Seq<char>,
    key: Seq<char>,
)
    ensures
        switch::auth_backup_path(backups_dir, stamp, None) == paths::inside(
            backups_dir,
            stamp + "__"@ + "unknown"@ + ".json"@,
        ),
        key.len() > 0 ==> switch::auth_backup_path(backups_dir, stamp, Some(key)) == paths::inside(
            backups_dir,
            stamp + "__"@ + accounts::file_text(key) + ".json"@,
        ),
        switch::aside_path(backups_dir, stamp, key) == paths::inside(
            backups_dir,
            stamp + "__mismatched-snapshot__"@ + accounts::file_text(key) + ".json"@,
        ),
{
    accounts::law_file_text_keeps_plain_characters(key, 0);
}

/// Going back is refused, with nothing done, where the backup of the last switch
/// cannot be read or used; otherwise the login in use is backed up first, the
/// old one put in its place, and the account of before made active again.
pub proof fn law_going_back(
    latest: LatestFacts,
    backup: Result<Login, Fault>,
    registry: RegistryFacts,
    context: SwitchContext,
)
    ensures
        ({
            let plan = switch::rollback_plan(latest, backup, registry, context);
            match backup {
                Err(fault) => plan.ops.len() == 0 && plan.outcome == Err::<SwitchFacts, Fault>(
                    fault,
                ),
                Ok(login) => match accounts::auth_fault(latest.backup_path, login.auth) {
                    Some(fault) => plan.ops.len() == 0 && plan.outcome == Err::<
                        SwitchFacts,
                        Fault,
                    >(fault),
                    None => {
                        &&& plan.outcome matches Ok(report) && {
                            &&& report.previous == Some(latest.active)
                            &&& latest.previous matches Some(key) ==> report.active == key
                            &&& report.restart_recommended
                            &&& report.backup_path == switch::auth_backup_path(
                                context.backups_dir@,
                                context.stamp@,
                                registry.active,
                            )
                        }
                        &&& plan.ops.len() == 3
                        &&& plan.ops[0] == OpFacts::Copy {
                            from: context.auth_path@,
                            to: plan.outcome->Ok_0.backup_path,
                        }
                        &&& plan.ops[1] == OpFacts::Copy {
                            from: latest.backup_path,
                            to: context.auth_path@,
                        }
                        &&& plan.ops[2] == OpFacts::WriteRegistry(
                            RegistryFacts {
                                active: latest.previous,
                                updated_at: context.now,
                                ..registry
                            },
                        )
                    },
                },
            }
        }),
{
}

} // verus!
