//! Keeping the current Codex login as an account.

use vstd::prelude::*;
use crate::accounts;
use crate::accounts::{AuthFile, Login};
use crate::error::{AppError, Fault};
use crate::json;
use crate::json::{Json, JsonTree};
use crate::paths;
use crate::registry;
use crate::registry::{CodexAccountSummary, ItemFacts, Registry, RegistryFacts, RegistryItem};
use crate::switch;
use crate::switch::{AccountOp, OpFacts, SwitchContext};
use crate::text;

verus! {

/// Operations, and the account that is reported once they are done.
#[derive(Debug)]
pub struct CapturePlan {
    pub ops: Vec<AccountOp>,
    pub outcome: Result<CodexAccountSummary, AppError>,
}

/// A text that is kept where there is one, and else another.
pub open spec fn kept(existing: Option<Seq<char>>, other: Seq<char>) -> Seq<char> {
    match existing {
        Some(value) => if value.len() == 0 {
            other
        } else {
            value
        },
        None => other,
    }
}

/// The item of an account whose login was captured. What the registry had of
/// it is kept, but a label that was given takes the place of its name.
pub open spec fn captured_item(
    existing: Option<ItemFacts>,
    login: Login,
    label: Seq<char>,
    snapshots_dir: Seq<char>,
    now: i64,
) -> ItemFacts {
    let key = accounts::account_key(login);
    let (email, name, plan) = accounts::metadata_of(login);
    ItemFacts {
        account_key: key,
        snapshot_path: match existing {
            Some(item) => item.snapshot_path,
            None => paths::inside(snapshots_dir, accounts::file_text(key) + ".json"@),
        },
        email: kept(match existing {
            Some(item) => Some(item.email),
            None => None,
        }, email),
        alias: match existing {
            Some(item) => item.alias,
            None => ""@,
        },
        account_name: kept(
            match existing {
            Some(item) => Some(item.account_name),
            None => None,
        },
            "Personal"@,
        ),
        workspace_name: kept(
            match existing {
            Some(item) => Some(item.workspace_name),
            None => None,
        },
            "Personal"@,
        ),
        profile_name: if label.len() > 0 {
            label
        } else {
            kept(
                match existing {
            Some(item) => Some(item.profile_name),
            None => None,
        },
                if name.len() == 0 {
                    "Current Codex Account"@
                } else {
                    name
                },
            )
        },
        plan: kept(match existing {
            Some(item) => Some(item.plan),
            None => None,
        }, plan),
        auth_mode: kept(
            match existing {
            Some(item) => Some(item.auth_mode),
            None => None,
        },
            accounts::or_else(login.auth.auth_mode, ""@),
        ),
        last_used_at: Some(now),
        extra: match existing {
            Some(item) => item.extra,
            None => JsonTree::Object(Seq::empty()),
        },
    }
}

/// The items of other accounts.
pub open spec fn other_items(items: Seq<ItemFacts>, key: Seq<char>) -> Seq<ItemFacts>
    decreases items.len(),
{
    if items.len() == 0 {
        Seq::empty()
    } else {
        let rest = other_items(items.drop_last(), key);
        if items.last().account_key == key {
            rest
        } else {
            rest.push(items.last())
        }
    }
}

/// The item of an account, if the registry has one.
pub open spec fn known_item(items: Seq<ItemFacts>, key: Seq<char>) -> Option<ItemFacts> {
    match registry::account_from(items, key, 0) {
        Some(i) => Some(items[i]),
        None => None,
    }
}

fn kept_text(existing: Option<&str>, other: String) -> (r: String)
    ensures
        r@ == kept(json::opt_str(existing), other@),
{
    match existing {
        Some(value) => if value.is_empty() {
            other
        } else {
            value.to_owned()
        },
        None => other,
    }
}

/// Takes the item of an account out of the items.
fn take_item(items: Vec<RegistryItem>, key: &str) -> (r: (Option<RegistryItem>, Vec<RegistryItem>))
    ensures
        (match r.0 {
            Some(item) => Some(item@),
            None => None,
        }) == known_item(registry::items_of(items@), key@),
        registry::items_of(r.1@) == other_items(registry::items_of(items@), key@),
{
    let ghost given = items@;
    let ghost all = registry::items_of(items@);
    let mut existing: Option<RegistryItem> = None;
    let mut rest: Vec<RegistryItem> = Vec::new();
    assert(registry::items_of(rest@) =~= other_items(all.take(0), key@));
    for item in it: items.into_iter()
        invariant
            it.seq() == given,
            all == registry::items_of(given),
            registry::items_of(rest@) == other_items(all.take(it.index() as int), key@),
            match existing {
                Some(found) => exists|j: int|
                    0 <= j < it.index() && all[j] == found@ && all[j].account_key == key@
                        && forall|k: int| 0 <= k < j ==> (#[trigger] all[k]).account_key != key@,
                None => forall|k: int|
                    0 <= k < it.index() ==> (#[trigger] all[k]).account_key != key@,
            },
    {
        let ghost i = it.index() as int;
        let ghost before = registry::items_of(rest@);
        let ghost value = item@;
        assert(all.take(i + 1).drop_last() =~= all.take(i));
        assert(all[i] == value);
        if text::same_text(item.account_key.as_str(), key) {
            if existing.is_none() {
                existing = Some(item);
            }
        } else {
            rest.push(item);
            assert(registry::items_of(rest@) =~= before.push(value));
        }
    }
    proof {
        assert(all.take(all.len() as int) =~= all);
        registry::lemma_account_from(all, key@, 0);
    }
    (existing, rest)
}

/// Capturing the current login: it is copied to the snapshot of its account,
/// which comes first in the registry and is active.
pub open spec fn capture_ops(
    label: Option<Seq<char>>,
    login: Login,
    registry: RegistryFacts,
    context: SwitchContext,
) -> Seq<OpFacts> {
    let key = accounts::account_key(login);
    let item = captured_item(
        known_item(registry.items, key),
        login,
        accounts::kept_label(label),
        context.snapshots_dir@,
        context.now,
    );
    seq![
        OpFacts::Copy { from: context.auth_path@, to: item.snapshot_path },
        OpFacts::WriteRegistry(
            RegistryFacts {
                active: Some(key),
                updated_at: context.now,
                items: seq![item] + other_items(registry.items, key),
                ..registry
            },
        ),
    ]
}

/// The item of an account whose login was captured.
fn make_item(
    existing: Option<RegistryItem>,
    login: &AuthFile,
    label: String,
    snapshots_dir: &str,
    now: i64,
) -> (r: RegistryItem)
    ensures
        r@ == captured_item(
            match existing {
                Some(item) => Some(item@),
                None => None,
            },
            login@,
            label@,
            snapshots_dir@,
            now,
        ),
{
    let key = accounts::account_key_from_auth(login);
    let metadata = accounts::metadata_from_auth(login);
    let mode = match &login.auth.auth_mode {
        Some(mode) => mode.as_str().to_owned(),
        None => "".to_owned(),
    };
    let name = if metadata.name.as_str().is_empty() {
        "Current Codex Account".to_owned()
    } else {
        metadata.name
    };
    match existing {
        Some(item) => RegistryItem {
            account_key: key,
            snapshot_path: item.snapshot_path,
            email: kept_text(Some(item.email.as_str()), metadata.email),
            alias: item.alias,
            account_name: kept_text(Some(item.account_name.as_str()), "Personal".to_owned()),
            workspace_name: kept_text(Some(item.workspace_name.as_str()), "Personal".to_owned()),
            profile_name: if !label.as_str().is_empty() {
                label
            } else {
                kept_text(Some(item.profile_name.as_str()), name)
            },
            plan: kept_text(Some(item.plan.as_str()), metadata.plan),
            auth_mode: kept_text(Some(item.auth_mode.as_str()), mode),
            last_used_at: Some(now),
            extra: item.extra,
        },
        None => {
            let file = text::joined(accounts::safe_file_name(key.as_str()).as_str(), ".json");
            let extra = Json::Object(Vec::new());
            assert(extra@->Object_0 =~= Seq::<(Seq<char>, JsonTree)>::empty());
            RegistryItem {
                account_key: key,
                snapshot_path: paths::join_path(snapshots_dir, file.as_str()),
                email: metadata.email,
                alias: "".to_owned(),
                account_name: "Personal".to_owned(),
                workspace_name: "Personal".to_owned(),
                profile_name: if !label.as_str().is_empty() {
                    label
                } else {
                    name
                },
                plan: metadata.plan,
                auth_mode: mode,
                last_used_at: Some(now),
                extra,
            }
        },
    }
}

/// What is wrong with a login that was read at `path`.
pub open spec fn login_fault(path: Seq<char>, login: Result<Login, Fault>) -> Option<Fault> {
    match login {
        Err(fault) => Some(fault),
        Ok(login) => accounts::auth_fault(path, login.auth),
    }
}

/// Captures the current login as a snapshot of its account.
pub fn capture_current(
    label: Option<&str>,
    current: Result<AuthFile, AppError>,
    registry: Registry,
    context: &SwitchContext,
) -> (r: CapturePlan)
    ensures
        match login_fault(context.auth_path@, switch::login_result(current)) {
            Some(fault) => r.ops@.len() == 0 && (r.outcome matches Err(error) && error@ == fault),
            None => {
                let login = switch::login_result(current)->Ok_0;
                let key = accounts::account_key(login);
                &&& switch::ops_of(r.ops@) == capture_ops(
                    json::opt_str(label),
                    login,
                    registry@,
                    *context,
                )
                &&& r.outcome matches Ok(summary) && summary@ == registry::summary_of(
                    captured_item(
                        known_item(registry@.items, key),
                        login,
                        accounts::kept_label(json::opt_str(label)),
                        context.snapshots_dir@,
                        context.now,
                    ),
                    Some(key),
                )
            },
        },
{
    let mut ops: Vec<AccountOp> = Vec::new();
    assert(switch::ops_of(ops@) =~= Seq::<OpFacts>::empty());
    let login = match current {
        Ok(login) => login,
        Err(error) => return CapturePlan { ops, outcome: Err(error) },
    };
    match accounts::validate_auth_file(context.auth_path.as_str(), &login.auth) {
        Ok(_) => {},
        Err(error) => return CapturePlan { ops, outcome: Err(error) },
    }
    let key = accounts::account_key_from_auth(&login);
    let ghost facts = registry@;
    let (existing, mut items) = take_item(registry.items, key.as_str());
    let ghost others = registry::items_of(items@);
    let item = make_item(
        existing,
        &login,
        accounts::clean_label(label),
        context.snapshots_dir.as_str(),
        context.now,
    );
    let ghost value = item@;
    let summary = registry::to_summary(&item, Some(key.as_str()));
    switch::push_copy(&mut ops, context.auth_path.as_str(), item.snapshot_path.as_str());
    items.insert(0, item);
    assert(registry::items_of(items@) =~= seq![value] + others);
    let noted = Registry {
        active_account_key: Some(key),
        updated_at: context.now,
        items,
        ..registry
    };
    let ghost written = noted@;
    let ghost copied = switch::ops_of(ops@);
    ops.push(AccountOp::WriteRegistry(noted));
    assert(switch::ops_of(ops@) =~= copied.push(OpFacts::WriteRegistry(written)));
    assert(switch::ops_of(ops@) =~= capture_ops(json::opt_str(label), login@, facts, *context));
    CapturePlan { ops, outcome: Ok(summary) }
}

proof fn lemma_other_items(items: Seq<ItemFacts>, key: Seq<char>)
    ensures
        forall|i: int|
            0 <= i < other_items(items, key).len() ==> (#[trigger] other_items(
                items,
                key,
            )[i]).account_key != key,
        forall|i: int|
            0 <= i < items.len() && (#[trigger] items[i]).account_key != key ==> other_items(
                items,
                key,
            ).contains(items[i]),
    decreases items.len(),
{
    if items.len() > 0 {
        let fewer = items.drop_last();
        lemma_other_items(fewer, key);
        let rest = other_items(fewer, key);
        let all = other_items(items, key);
        assert forall|i: int| 0 <= i < items.len() && (#[trigger] items[i]).account_key
            != key implies all.contains(items[i]) by {
            if i < fewer.len() {
                assert(fewer[i] == items[i]);
                let k = choose|k: int| 0 <= k < rest.len() && rest[k] == items[i];
                assert(all[k] == items[i]);
            } else {
                assert(all[all.len() - 1] == items[i]);
            }
        }
    }
}

/// A captured account is the first of the registry and the active one, no
/// other item has its key, and every other account is still there as it was.
pub proof fn law_capture_keeps_other_accounts(
    label: Option<Seq<char>>,
    login: Login,
    registry: RegistryFacts,
    context: SwitchContext,
)
    ensures
        ({
            let key = accounts::account_key(login);
            let written = capture_ops(label, login, registry, context)[1]->WriteRegistry_0;
            &&& written.active == Some(key)
            &&& written.items[0].account_key == key
            &&& forall|i: int|
                1 <= i < written.items.len() ==> (#[trigger] written.items[i]).account_key != key
            &&& forall|i: int|
                0 <= i < registry.items.len() && (#[trigger] registry.items[i]).account_key != key
                    ==> written.items.contains(registry.items[i])
        }),
{
    let key = accounts::account_key(login);
    let rest = other_items(registry.items, key);
    let written = capture_ops(label, login, registry, context)[1]->WriteRegistry_0;
    lemma_other_items(registry.items, key);
    assert forall|i: int| 1 <= i < written.items.len() implies (
    #[trigger] written.items[i]).account_key != key by {
        assert(written.items[i] == rest[i - 1]);
    }
    assert forall|i: int|
        0 <= i < registry.items.len() && (#[trigger] registry.items[i]).account_key
            != key implies written.items.contains(registry.items[i]) by {
        let k = choose|k: int| 0 <= k < rest.len() && rest[k] == registry.items[i];
        assert(written.items[k + 1] == registry.items[i]);
    }
}

/// A captured login that the registry did not know becomes an account with what
/// its token says, used just now, with a snapshot that is named after its key.
/// A label that was given is its name.
pub proof fn law_new_account_is_what_the_login_says(
    login: Login,
    label: Seq<char>,
    snapshots_dir: Seq<char>,
    now: i64,
)
    ensures
        ({
            let item = captured_item(None, login, label, snapshots_dir, now);
            let (email, name, plan) = accounts::metadata_of(login);
            &&& item.account_key == accounts::account_key(login)
            &&& item.snapshot_path == paths::inside(
                snapshots_dir,
                accounts::file_text(accounts::account_key(login)) + ".json"@,
            )
            &&& item.email == email
            &&& item.plan == plan
            &&& item.alias == ""@
            &&& item.account_name == "Personal"@
            &&& item.workspace_name == "Personal"@
            &&& item.last_used_at == Some(now)
            &&& login.auth.auth_mode matches Some(mode) ==> item.auth_mode == mode
            &&& login.auth.auth_mode is None ==> item.auth_mode == ""@
            &&& item.extra == JsonTree::Object(Seq::empty())
            &&& label.len() > 0 ==> item.profile_name == label
            &&& label.len() == 0 && name.len() > 0 ==> item.profile_name == name
            &&& label.len() == 0 && name.len() == 0 ==> item.profile_name
                == "Current Codex Account"@
        }),
{
}

/// A captured login that the registry knew keeps what is written down of the
/// account, field by field, and is given what its token says only where nothing
/// is written down; but it was used just now, and a label that was given is its
/// name from then on.
pub proof fn law_known_account_keeps_its_item(
    existing: ItemFacts,
    login: Login,
    label: Seq<char>,
    snapshots_dir: Seq<char>,
    now: i64,
)
    ensures
        ({
            let item = captured_item(Some(existing), login, label, snapshots_dir, now);
            let (email, name, plan) = accounts::metadata_of(login);
            &&& item.account_key == accounts::account_key(login)
            &&& item.snapshot_path == existing.snapshot_path
            &&& item.alias == existing.alias
            &&& item.extra == existing.extra
            &&& item.last_used_at == Some(now)
            &&& item.email == (if existing.email.len() > 0 { existing.email } else { email })
            &&& item.plan == (if existing.plan.len() > 0 { existing.plan } else { plan })
            &&& existing.account_name.len() > 0 ==> item.account_name == existing.account_name
            &&& existing.account_name.len() == 0 ==> item.account_name == "Personal"@
            &&& existing.workspace_name.len() > 0 ==> item.workspace_name == existing.workspace_name
            &&& existing.workspace_name.len() == 0 ==> item.workspace_name == "Personal"@
            &&& existing.auth_mode.len() > 0 ==> item.auth_mode == existing.auth_mode
            &&& label.len() > 0 ==> item.profile_name == label
            &&& label.len() == 0 && existing.profile_name.len() > 0 ==> item.profile_name
                == existing.profile_name
            &&& label.len() == 0 && existing.profile_name.len() == 0 && name.len() > 0
                ==> item.profile_name == name
        }),
{
}

/// Capturing copies the auth file to the snapshot of its account and nothing to
/// anywhere else, and then writes the registry, of which all but the accounts,
/// the active one and the time stays as it was.
pub proof fn law_capture_copies_the_login_to_its_snapshot(
    label: Option<Seq<char>>,
    login: Login,
    registry: RegistryFacts,
    context: SwitchContext,
)
    ensures
        ({
            let ops = capture_ops(label, login, registry, context);
            let key = accounts::account_key(login);
            &&& ops.len() == 2
            &&& ops[1] is WriteRegistry
            &&& ops[0] == OpFacts::Copy {
                from: context.auth_path@,
                to: ops[1]->WriteRegistry_0.items[0].snapshot_path,
            }
            &&& (forall|i: int|
                0 <= i < registry.items.len() ==> (#[trigger] registry.items[i]).account_key != key)
                ==> ops[0] == OpFacts::Copy {
                from: context.auth_path@,
                to: paths::inside(context.snapshots_dir@, accounts::file_text(key) + ".json"@),
            }
            &&& ops[1]->WriteRegistry_0.updated_at == context.now
            &&& ops[1]->WriteRegistry_0.schema_version == registry.schema_version
            &&& ops[1]->WriteRegistry_0.extra == registry.extra
        }),
{
    registry::lemma_account_from(registry.items, accounts::account_key(login), 0);
}

/// Captured twice in a row, an account is in the registry once and keeps its
/// snapshot's path.
pub proof fn law_account_is_captured_once(
    label: Option<Seq<char>>,
    login: Login,
    registry: RegistryFacts,
    context: SwitchContext,
    again: Option<Seq<char>>,
    later: SwitchContext,
)
    ensures
        ({
            let first = capture_ops(label, login, registry, context)[1]->WriteRegistry_0;
            let second = capture_ops(again, login, first, later)[1]->WriteRegistry_0;
            &&& second.items.len() == first.items.len()
            &&& second.items[0].snapshot_path == first.items[0].snapshot_path
            &&& second.items.skip(1) == first.items.skip(1)
        }),
{
    let key = accounts::account_key(login);
    let first = capture_ops(label, login, registry, context)[1]->WriteRegistry_0;
    let others = other_items(registry.items, key);
    lemma_other_items(registry.items, key);
    let second = capture_ops(again, login, first, later)[1]->WriteRegistry_0;
    registry::lemma_account_from(first.items, key, 0);
    assert(first.items[0].account_key == key);
    assert(first.items =~= seq![first.items[0]] + others);
    lemma_others_again(first.items[0], others, key);
    assert(second.items =~= seq![second.items[0]] + others);
    assert(second.items.skip(1) =~= first.items.skip(1));
}

proof fn lemma_others_again(item: ItemFacts, others: Seq<ItemFacts>, key: Seq<char>)
    requires
        item.account_key == key,
        forall|i: int| 0 <= i < others.len() ==> (#[trigger] others[i]).account_key != key,
    ensures
        other_items(seq![item] + others, key) == others,
    decreases others.len(),
{
    let all = seq![item] + others;
    if others.len() == 0 {
        assert(all.drop_last() =~= Seq::<ItemFacts>::empty());
        assert(all.last() == item);
        assert(other_items(Seq::<ItemFacts>::empty(), key).len() == 0);
        assert(other_items(all, key) =~= others);
    } else {
        let fewer = others.drop_last();
        assert forall|i: int| 0 <= i < fewer.len() implies (#[trigger] fewer[i]).account_key != key by {
            assert(fewer[i] == others[i]);
        }
        lemma_others_again(item, fewer, key);
        assert(all.drop_last() =~= seq![item] + fewer);
        assert(all.last() == others.last());
        assert(others.last() == others[others.len() - 1]);
        assert(fewer.push(others.last()) =~= others);
    }
}

/// The other accounts keep their order.
pub proof fn law_other_accounts_keep_their_order(
    items: Seq<ItemFacts>,
    item: ItemFacts,
    key: Seq<char>,
)
    ensures
        other_items(Seq::empty(), key).len() == 0,
        item.account_key == key ==> other_items(items.push(item), key) == other_items(items, key),
        item.account_key != key ==> other_items(items.push(item), key) == other_items(
            items,
            key,
        ).push(item),
{
    assert(items.push(item).drop_last() =~= items);
}

} // verus!
