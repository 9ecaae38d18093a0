//! The registry of Codex accounts.

use vstd::prelude::*;
use crate::accounts;
use crate::accounts::{AuthFile, Login};
use crate::hash;
use crate::json;
use crate::json::{Json, JsonTree};
use crate::paths;
use crate::text;

verus! {

/// An account as the user sees it.
#[derive(Debug)]
pub struct CodexAccountSummary {
    pub account_key: String,
    pub profile_name: String,
    pub email_masked: String,
    pub plan: String,
    pub auth_mode: String,
    pub is_active: bool,
    pub last_used_at: Option<i64>,
}

/// What a summary says.
pub struct SummaryFacts {
    pub account_key: Seq<char>,
    pub profile_name: Seq<char>,
    pub email_masked: Seq<char>,
    pub plan: Seq<char>,
    pub auth_mode: Seq<char>,
    pub is_active: bool,
    pub last_used_at: Option<i64>,
}

impl View for CodexAccountSummary {
    type V = SummaryFacts;

    open spec fn view(&self) -> SummaryFacts {
        SummaryFacts {
            account_key: self.account_key@,
            profile_name: self.profile_name@,
            email_masked: self.email_masked@,
            plan: self.plan@,
            auth_mode: self.auth_mode@,
            is_active: self.is_active,
            last_used_at: self.last_used_at,
        }
    }
}

/// An account in the registry. What other programs keep with it is left alone.
#[derive(Debug)]
pub struct RegistryItem {
    pub account_key: String,
    pub snapshot_path: String,
    pub email: String,
    pub alias: String,
    pub account_name: String,
    pub workspace_name: String,
    pub profile_name: String,
    pub plan: String,
    pub auth_mode: String,
    pub last_used_at: Option<i64>,
    pub extra: Json,
}

/// What an item says.
pub struct ItemFacts {
    pub account_key: Seq<char>,
    pub snapshot_path: Seq<char>,
    pub email: Seq<char>,
    pub alias: Seq<char>,
    pub account_name: Seq<char>,
    pub workspace_name: Seq<char>,
    pub profile_name: Seq<char>,
    pub plan: Seq<char>,
    pub auth_mode: Seq<char>,
    pub last_used_at: Option<i64>,
    pub extra: JsonTree,
}

impl View for RegistryItem {
    type V = ItemFacts;

    open spec fn view(&self) -> ItemFacts {
        ItemFacts {
            account_key: self.account_key@,
            snapshot_path: self.snapshot_path@,
            email: self.email@,
            alias: self.alias@,
            account_name: self.account_name@,
            workspace_name: self.workspace_name@,
            profile_name: self.profile_name@,
            plan: self.plan@,
            auth_mode: self.auth_mode@,
            last_used_at: self.last_used_at,
            extra: self.extra@,
        }
    }
}

/// What items say.
pub open spec fn items_of(items: Seq<RegistryItem>) -> Seq<ItemFacts> {
    items.map_values(|item: RegistryItem| item@)
}

/// The registry of accounts.
#[derive(Debug)]
pub struct Registry {
    pub schema_version: u32,
    pub updated_at: i64,
    pub active_account_key: Option<String>,
    pub items: Vec<RegistryItem>,
    pub extra: Json,
}

/// What a registry says.
pub struct RegistryFacts {
    pub schema_version: u32,
    pub updated_at: i64,
    pub active: Option<Seq<char>>,
    pub items: Seq<ItemFacts>,
    pub extra: JsonTree,
}

impl View for Registry {
    type V = RegistryFacts;

    open spec fn view(&self) -> RegistryFacts {
        RegistryFacts {
            schema_version: self.schema_version,
            updated_at: self.updated_at,
            active: text::opt_text(self.active_account_key),
            items: items_of(self.items@),
            extra: self.extra@,
        }
    }
}

impl Registry {
    /// A registry without accounts.
    pub fn new(now: i64) -> (r: Registry)
        ensures
            r@ == (RegistryFacts {
                schema_version: 2,
                updated_at: now,
                active: None,
                items: Seq::empty(),
                extra: JsonTree::Object(Seq::empty()),
            }),
    {
        let extra = Json::Object(Vec::new());
        assert(extra@->Object_0 =~= Seq::<(Seq<char>, JsonTree)>::empty());
        let items: Vec<RegistryItem> = Vec::new();
        assert(items_of(items@) =~= Seq::<ItemFacts>::empty());
        Registry { schema_version: 2, updated_at: now, active_account_key: None, items, extra }
    }
}

/// An account as the user sees it.
pub open spec fn summary_of(item: ItemFacts, active: Option<Seq<char>>) -> SummaryFacts {
    SummaryFacts {
        account_key: item.account_key,
        profile_name: accounts::first_filled(
            seq![item.alias, item.profile_name, item.account_name, "Unnamed account"@],
        ),
        email_masked: accounts::masked(item.email),
        plan: item.plan,
        auth_mode: item.auth_mode,
        is_active: active == Some(item.account_key),
        last_used_at: item.last_used_at,
    }
}

/// An account as the user sees it.
pub fn to_summary(item: &RegistryItem, active_account_key: Option<&str>) -> (r: CodexAccountSummary)
    ensures
        r@ == summary_of(item@, json::opt_str(active_account_key)),
{
    let names: Vec<&str> = vec![
        item.alias.as_str(),
        item.profile_name.as_str(),
        item.account_name.as_str(),
        "Unnamed account",
    ];
    assert(hash::views(names@) =~= seq![
        item@.alias,
        item@.profile_name,
        item@.account_name,
        "Unnamed account"@,
    ]);
    CodexAccountSummary {
        account_key: item.account_key.as_str().to_owned(),
        profile_name: accounts::first_non_empty(&names),
        email_masked: accounts::mask_email(item.email.as_str()),
        plan: item.plan.as_str().to_owned(),
        auth_mode: item.auth_mode.as_str().to_owned(),
        is_active: match active_account_key {
            Some(key) => text::same_text(key, item.account_key.as_str()),
            None => false,
        },
        last_used_at: item.last_used_at,
    }
}

/// What summaries say.
pub open spec fn summaries_of(items: Seq<CodexAccountSummary>) -> Seq<SummaryFacts> {
    items.map_values(|s: CodexAccountSummary| s@)
}

/// An optional string, borrowed.
pub fn borrowed(value: &Option<String>) -> (r: Option<&str>)
    ensures
        json::opt_str(r) == text::opt_text(*value),
{
    match value {
        Some(text) => Some(text.as_str()),
        None => None,
    }
}

/// The accounts of a registry as the user sees them.
pub fn list_accounts(registry: &Registry) -> (r: Vec<CodexAccountSummary>)
    ensures
        summaries_of(r@) == registry@.items.map_values(
            |item: ItemFacts| summary_of(item, registry@.active),
        ),
{
    let ghost wanted = registry@.items.map_values(
        |item: ItemFacts| summary_of(item, registry@.active),
    );
    let mut out: Vec<CodexAccountSummary> = Vec::new();
    let mut i: usize = 0;
    while i < registry.items.len()
        invariant
            i <= registry.items@.len(),
            out@.len() == i,
            forall|k: int|
                0 <= k < i ==> (#[trigger] out@[k])@ == summary_of(
                    registry.items@[k]@,
                    registry@.active,
                ),
        decreases registry.items@.len() - i,
    {
        out.push(to_summary(&registry.items[i], borrowed(&registry.active_account_key)));
        i += 1;
    }
    assert(summaries_of(out@) =~= wanted);
    out
}

/// The first position from `from` on of an account.
pub open spec fn account_from(items: Seq<ItemFacts>, key: Seq<char>, from: int) -> Option<int>
    decreases items.len() - from,
{
    if from < 0 || from >= items.len() {
        None
    } else if items[from].account_key == key {
        Some(from)
    } else {
        account_from(items, key, from + 1)
    }
}

pub proof fn lemma_account_from(items: Seq<ItemFacts>, key: Seq<char>, from: int)
    requires
        0 <= from,
    ensures
        match account_from(items, key, from) {
            Some(i) => from <= i < items.len() && items[i].account_key == key && forall|k: int|
                from <= k < i ==> (#[trigger] items[k]).account_key != key,
            None => forall|k: int|
                from <= k < items.len() ==> (#[trigger] items[k]).account_key != key,
        },
    decreases items.len() - from,
{
    if from < items.len() && items[from].account_key != key {
        lemma_account_from(items, key, from + 1);
    }
}

/// The position of an account.
pub fn find_account(items: &Vec<RegistryItem>, key: &str) -> (r: Option<usize>)
    ensures
        match r {
            Some(i) => i < items@.len() && account_from(items_of(items@), key@, 0) == Some(
                i as int,
            ) && items@[i as int].account_key@ == key@,
            None => account_from(items_of(items@), key@, 0) is None,
        },
{
    let ghost all = items_of(items@);
    let mut i: usize = 0;
    while i < items.len()
        invariant
            i <= items@.len(),
            all == items_of(items@),
            account_from(all, key@, i as int) == account_from(all, key@, 0),
        decreases items@.len() - i,
    {
        assert(all[i as int] == items@[i as int]@);
        if text::same_text(items[i].account_key.as_str(), key) {
            return Some(i);
        }
        i += 1;
    }
    None
}

/// The file at a path is JSON by its name.
pub open spec fn json_named(path: Seq<char>) -> bool {
    paths::extension_of(path) == Some("json"@)
}

/// Whether the file at a path is JSON by its name.
pub fn is_json_named(path: &str) -> (r: bool)
    ensures
        r == json_named(path@),
{
    match paths::extension(path) {
        Some(extension) => text::same_text(extension.as_str(), "json"),
        None => false,
    }
}

/// A file that may be a snapshot of an account: what was read of it, and when
/// it was changed.
#[derive(Debug)]
pub struct SnapshotFile {
    pub path: String,
    pub login: Option<AuthFile>,
    pub modified: Option<i64>,
}

/// The login of a file that can be used as a snapshot.
pub open spec fn usable_login(path: Seq<char>, login: Option<AuthFile>) -> Option<Login> {
    match login {
        Some(file) => if json_named(path) && accounts::auth_fault(path, file@.auth) is None {
            Some(file@)
        } else {
            None
        },
        None => None,
    }
}

/// The account of a snapshot that no item of the registry speaks of.
pub open spec fn found_item(path: Seq<char>, login: Login, modified: Option<i64>) -> ItemFacts {
    let (email, name, plan) = accounts::metadata_of(login);
    ItemFacts {
        account_key: accounts::account_key(login),
        snapshot_path: path,
        email,
        alias: ""@,
        account_name: "Personal"@,
        workspace_name: "Personal"@,
        profile_name: if name.len() == 0 {
            "Codex Account Snapshot"@
        } else {
            name
        },
        plan,
        auth_mode: accounts::or_else(login.auth.auth_mode, ""@),
        last_used_at: modified,
        extra: JsonTree::Object(Seq::empty()),
    }
}

/// The accounts of snapshots that no item of the registry speaks of.
pub open spec fn found_items(known: Seq<ItemFacts>, files: Seq<SnapshotFile>) -> Seq<ItemFacts>
    decreases files.len(),
{
    if files.len() == 0 {
        Seq::empty()
    } else {
        let rest = found_items(known, files.drop_last());
        let file = files.last();
        match usable_login(file.path@, file.login) {
            Some(login) => if account_from(known, accounts::account_key(login), 0) is Some {
                rest
            } else {
                rest.push(found_item(file.path@, login, file.modified))
            },
            None => rest,
        }
    }
}

/// A snapshot of an account that the registry has is not taken for another
/// account.
pub proof fn law_known_accounts_are_not_found_again(
    known: Seq<ItemFacts>,
    files: Seq<SnapshotFile>,
    i: int,
)
    requires
        0 <= i < found_items(known, files).len(),
    ensures
        account_from(known, found_items(known, files)[i].account_key, 0) is None,
    decreases files.len(),
{
    if files.len() > 0 && i < found_items(known, files.drop_last()).len() {
        law_known_accounts_are_not_found_again(known, files.drop_last(), i);
    }
}

/// The item of a snapshot.
fn item_from(file: &SnapshotFile, login: &AuthFile) -> (r: RegistryItem)
    ensures
        r@ == found_item(file.path@, login@, file.modified),
{
    let metadata = accounts::metadata_from_auth(login);
    let extra = Json::Object(Vec::new());
    assert(extra@->Object_0 =~= Seq::<(Seq<char>, JsonTree)>::empty());
    let auth_mode = match &login.auth.auth_mode {
        Some(mode) => mode.as_str().to_owned(),
        None => "".to_owned(),
    };
    RegistryItem {
        account_key: accounts::account_key_from_auth(login),
        snapshot_path: file.path.as_str().to_owned(),
        email: metadata.email,
        alias: "".to_owned(),
        account_name: "Personal".to_owned(),
        workspace_name: "Personal".to_owned(),
        profile_name: if metadata.name.as_str().is_empty() {
            "Codex Account Snapshot".to_owned()
        } else {
            metadata.name
        },
        plan: metadata.plan,
        auth_mode,
        last_used_at: file.modified,
        extra,
    }
}

/// The registry with the accounts of snapshots that it does not speak of.
/// Files that cannot be used as snapshots are passed over.
pub fn read_registry_with_snapshot_scan(registry: Registry, files: &Vec<SnapshotFile>) -> (r:
    Registry)
    ensures
        r@ == (RegistryFacts {
            items: registry@.items + found_items(registry@.items, files@),
            ..registry@
        }),
{
    let ghost known = registry@.items;
    let mut found: Vec<RegistryItem> = Vec::new();
    let mut i: usize = 0;
    assert(items_of(found@) =~= found_items(known, files@.take(0)));
    while i < files.len()
        invariant
            i <= files@.len(),
            known == items_of(registry.items@),
            items_of(found@) == found_items(known, files@.take(i as int)),
        decreases files@.len() - i,
    {
        let file = &files[i];
        let ghost before = items_of(found@);
        assert(files@.take(i + 1).drop_last() =~= files@.take(i as int));
        if is_json_named(file.path.as_str()) {
            if let Some(login) = &file.login {
                if accounts::validate_auth_file(file.path.as_str(), &login.auth).is_ok() {
                    let key = accounts::account_key_from_auth(login);
                    if find_account(&registry.items, key.as_str()).is_none() {
                        let item = item_from(file, login);
                        let ghost value = item@;
                        found.push(item);
                        assert(items_of(found@) =~= before.push(value));
                    }
                }
            }
        }
        i += 1;
    }
    assert(files@.take(files@.len() as int) =~= files@);
    let ghost more = items_of(found@);
    let ghost given = found@;
    let mut items = registry.items;
    assert(known + more.take(0) =~= known);
    for item in it: found.into_iter()
        invariant
            it.seq() == given,
            more == items_of(given),
            items_of(items@) == known + more.take(it.index() as int),
    {
        let ghost k = it.index() as int;
        let ghost before = items_of(items@);
        let ghost value = item@;
        items.push(item);
        assert(more[k] == value);
        assert(items_of(items@) =~= before.push(value));
        assert(known + more.take(k + 1) =~= (known + more.take(k)).push(value));
    }
    assert(more.take(more.len() as int) =~= more);
    Registry { items, ..registry }
}

/// Where accounts are kept.
#[derive(Debug)]
pub struct AccountPaths {
    pub registry_path: String,
    pub snapshots_dir: String,
    pub backups_dir: String,
    pub latest_switch_path: String,
}

/// The directory that accounts are kept in: Codex's own, unless only the
/// older one exists.
pub open spec fn accounts_base(
    canonical: Seq<char>,
    canonical_exists: bool,
    legacy: Seq<char>,
    legacy_exists: bool,
) -> Seq<char> {
    if canonical_exists || !legacy_exists {
        canonical
    } else {
        legacy
    }
}

/// Where accounts are kept.
pub fn account_paths(
    canonical: &str,
    canonical_exists: bool,
    legacy: &str,
    legacy_exists: bool,
) -> (r: AccountPaths)
    ensures
        ({
            let base = accounts_base(canonical@, canonical_exists, legacy@, legacy_exists);
            &&& r.registry_path@ == paths::inside(base, "registry.json"@)
            &&& r.snapshots_dir@ == paths::inside(base, "snapshots"@)
            &&& r.backups_dir@ == paths::inside(base, "backups"@)
            &&& r.latest_switch_path@ == paths::inside(base, "latest-switch.json"@)
        }),
{
    let base = if canonical_exists || !legacy_exists {
        canonical
    } else {
        legacy
    };
    AccountPaths {
        registry_path: paths::join_path(base, "registry.json"),
        snapshots_dir: paths::join_path(base, "snapshots"),
        backups_dir: paths::join_path(base, "backups"),
        latest_switch_path: paths::join_path(base, "latest-switch.json"),
    }
}

/// An account is shown under its alias, else its profile's name, else its own
/// name, whichever of them is the first that is not blank; its address is
/// masked, and it is shown as active where, and only where, it is.
pub proof fn law_summary_shows_the_account(item: ItemFacts, active: Option<Seq<char>>)
    ensures
        ({
            let shown = summary_of(item, active);
            &&& shown.account_key == item.account_key
            &&& shown.plan == item.plan
            &&& shown.auth_mode == item.auth_mode
            &&& shown.last_used_at == item.last_used_at
            &&& shown.email_masked == accounts::masked(item.email)
            &&& shown.is_active <==> active == Some(item.account_key)
            &&& !text::blank(item.alias) ==> shown.profile_name == text::trimmed(item.alias)
            &&& text::blank(item.alias) && !text::blank(item.profile_name) ==> shown.profile_name
                == text::trimmed(item.profile_name)
            &&& text::blank(item.alias) && text::blank(item.profile_name) && !text::blank(
                item.account_name,
            ) ==> shown.profile_name == text::trimmed(item.account_name)
            &&& text::blank(item.alias) && text::blank(item.profile_name) && text::blank(
                item.account_name,
            ) ==> shown.profile_name == "Unnamed account"@
        }),
{
    let names = seq![item.alias, item.profile_name, item.account_name, "Unnamed account"@];
    reveal_strlit("Unnamed account");
    let last = "Unnamed account"@;
    assert(last.len() == 15);
    assert(last[0] == 'U' && last[14] == 't');
    text::law_white_space('U');
    text::law_white_space('t');
    assert(text::trimmed(last) == last);
    assert(names[0] == item.alias && names[1] == item.profile_name && names[2]
        == item.account_name && names[3] == last);
    accounts::law_first_filled(names, 0);
    accounts::law_first_filled(names, 1);
    accounts::law_first_filled(names, 2);
    accounts::law_first_filled(names, 3);
}

/// The account of a key is found where, and only where, an item has it, and the
/// first such item counts.
pub proof fn law_accounts_are_found(items: Seq<ItemFacts>, key: Seq<char>, i: int)
    ensures
        account_from(items, key, 0) == Some(i) <==> 0 <= i < items.len() && items[i].account_key
            == key && forall|k: int| 0 <= k < i ==> (#[trigger] items[k]).account_key != key,
        account_from(items, key, 0) is None <==> forall|k: int|
            0 <= k < items.len() ==> (#[trigger] items[k]).account_key != key,
{
    lemma_account_from(items, key, 0);
}

/// A file serves as a snapshot where, and only where, it is JSON by its name
/// and holds a ChatGPT login with tokens or an API login with its key.
pub proof fn law_usable_snapshots(path: Seq<char>, login: Option<AuthFile>)
    ensures
        usable_login(path, login) is Some <==> {
            &&& paths::extension_of(path) == Some("json"@)
            &&& login matches Some(file) && {
                ||| file@.auth.auth_mode == Some("chatgpt"@) && file@.auth.tokens is Some
                ||| file@.auth.auth_mode == Some("apikey"@) && file@.auth.openai_api_key matches Some(
                    JsonTree::Text(_),
                )
            }
        },
        usable_login(path, login) matches Some(read) ==> (login matches Some(file) && file@ == read),
{
    if let Some(file) = login {
        accounts::law_usable_logins(path, file@.auth);
    }
}

/// Every snapshot of an account that the registry does not speak of is taken
/// for that account: the item has the key and the metadata of the login, the
/// path of the file and the time of its change.
pub proof fn law_unknown_snapshots_are_found(
    known: Seq<ItemFacts>,
    files: Seq<SnapshotFile>,
    k: int,
    login: Login,
)
    requires
        0 <= k < files.len(),
        usable_login(files[k].path@, files[k].login) == Some(login),
        forall|i: int|
            0 <= i < known.len() ==> (#[trigger] known[i]).account_key != accounts::account_key(
                login,
            ),
    ensures
        exists|i: int|
            0 <= i < found_items(known, files).len() && {
                let item = #[trigger] found_items(known, files)[i];
                let (email, name, plan) = accounts::metadata_of(login);
                &&& item.account_key == accounts::account_key(login)
                &&& item.snapshot_path == files[k].path@
                &&& item.last_used_at == files[k].modified
                &&& item.email == email
                &&& item.plan == plan
                &&& item.alias.len() == 0
                &&& item.account_name == "Personal"@
                &&& item.workspace_name == "Personal"@
                &&& name.len() > 0 ==> item.profile_name == name
                &&& name.len() == 0 ==> item.profile_name == "Codex Account Snapshot"@
                &&& item.auth_mode == (match login.auth.auth_mode {
                    Some(mode) => mode,
                    None => ""@,
                })
            },
    decreases files.len(),
{
    reveal_strlit("");
    let fewer = files.drop_last();
    let rest = found_items(known, fewer);
    let all = found_items(known, files);
    lemma_account_from(known, accounts::account_key(login), 0);
    if k < fewer.len() {
        assert(fewer[k] == files[k]);
        law_unknown_snapshots_are_found(known, fewer, k, login);
        let i = choose|i: int|
            0 <= i < rest.len() && {
                let item = #[trigger] rest[i];
                let (email, name, plan) = accounts::metadata_of(login);
                &&& item.account_key == accounts::account_key(login)
                &&& item.snapshot_path == files[k].path@
                &&& item.last_used_at == files[k].modified
                &&& item.email == email
                &&& item.plan == plan
                &&& item.alias.len() == 0
                &&& item.account_name == "Personal"@
                &&& item.workspace_name == "Personal"@
                &&& name.len() > 0 ==> item.profile_name == name
                &&& name.len() == 0 ==> item.profile_name == "Codex Account Snapshot"@
                &&& item.auth_mode == (match login.auth.auth_mode {
                    Some(mode) => mode,
                    None => ""@,
                })
            };
        assert(all[i] == rest[i]);
    } else {
        assert(all[rest.len() as int] == found_item(files[k].path@, login, files[k].modified));
    }
}

/// Nothing is taken for an account but a file that serves as a snapshot.
pub proof fn law_found_accounts_have_a_snapshot(
    known: Seq<ItemFacts>,
    files: Seq<SnapshotFile>,
    i: int,
)
    requires
        0 <= i < found_items(known, files).len(),
    ensures
        exists|k: int|
            0 <= k < files.len() && found_items(known, files)[i].snapshot_path == (
            #[trigger] files[k]).path@ && (usable_login(files[k].path@, files[k].login) matches Some(
                login,
            ) && accounts::account_key(login) == found_items(known, files)[i].account_key),
    decreases files.len(),
{
    let fewer = files.drop_last();
    let rest = found_items(known, fewer);
    if i < rest.len() {
        law_found_accounts_have_a_snapshot(known, fewer, i);
        let k = choose|k: int|
            0 <= k < fewer.len() && rest[i].snapshot_path == (#[trigger] fewer[k]).path@ && (
            usable_login(fewer[k].path@, fewer[k].login) matches Some(login)
                && accounts::account_key(login) == rest[i].account_key);
        assert(files[k] == fewer[k]);
    } else {
        assert(files[files.len() - 1] == files.last());
    }
}

/// Accounts are kept in Codex's own directory, unless only the older one is
/// there.
pub proof fn law_where_accounts_are_kept(canonical: Seq<char>, legacy: Seq<char>)
    ensures
        accounts_base(canonical, true, legacy, true) == canonical,
        accounts_base(canonical, true, legacy, false) == canonical,
        accounts_base(canonical, false, legacy, false) == canonical,
        accounts_base(canonical, false, legacy, true) == legacy,
{
}

} // verus!
