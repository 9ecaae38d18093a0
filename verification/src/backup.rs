//! Backups of Maka's connections and credentials: what a valid one is, how it
//! is named and listed.

use vstd::prelude::*;
use crate::error::{AppError, Fault};
use crate::json;
use crate::json::{Json, JsonTree};
use crate::paths;
use crate::text;

verus! {

/// The version of the backups that are written and read.
pub const BACKUP_SCHEMA_VERSION: u32 = 1;

pub const MANUAL_BACKUP: &'static str = "manual";

pub const SAFETY_BACKUP: &'static str = "safety";

pub const BACKUP_PREFIX: &'static str = "maka_llm_";

pub const BACKUP_SUFFIX: &'static str = ".json";

/// A backup as the user sees it.
#[derive(Debug)]
pub struct MakaLlmBackupEntry {
    pub filename: String,
    pub size_bytes: u64,
    pub created_at: String,
    pub backup_type: String,
    pub connection_count: usize,
    pub credential_count: usize,
    pub includes_credentials: bool,
}

/// What an entry says.
pub struct EntryFacts {
    pub filename: Seq<char>,
    pub size_bytes: u64,
    pub created_at: Seq<char>,
    pub backup_type: Seq<char>,
    pub connection_count: int,
    pub credential_count: int,
    pub includes_credentials: bool,
}

impl View for MakaLlmBackupEntry {
    type V = EntryFacts;

    open spec fn view(&self) -> EntryFacts {
        EntryFacts {
            filename: self.filename@,
            size_bytes: self.size_bytes,
            created_at: self.created_at@,
            backup_type: self.backup_type@,
            connection_count: self.connection_count as int,
            credential_count: self.credential_count as int,
            includes_credentials: self.includes_credentials,
        }
    }
}

/// A backup as it is kept in a file.
pub struct MakaLlmBackupFile {
    pub schema_version: u32,
    pub backup_type: String,
    pub created_at: String,
    pub llm_connections: serde_json::Value,
    pub credentials: Option<serde_json::Value>,
}

/// A backup as it is kept in a file.
pub struct BackupFacts {
    pub schema_version: u32,
    pub backup_type: Seq<char>,
    pub created_at: Seq<char>,
    pub connections: JsonTree,
    pub credentials: Option<JsonTree>,
}

/// The document of an optional value.
pub open spec fn opt_content(value: Option<serde_json::Value>) -> Option<JsonTree> {
    match value {
        Some(v) => Some(json::json_content(v)),
        None => None,
    }
}

impl View for MakaLlmBackupFile {
    type V = BackupFacts;

    open spec fn view(&self) -> BackupFacts {
        BackupFacts {
            schema_version: self.schema_version,
            backup_type: self.backup_type@,
            created_at: self.created_at@,
            connections: json::json_content(self.llm_connections),
            credentials: opt_content(self.credentials),
        }
    }
}

/// A text that is missing, no text, or empty.
pub open spec fn lacks_text(item: JsonTree, key: Seq<char>) -> bool {
    match item.get_text(key) {
        Some(value) => value.len() == 0,
        None => true,
    }
}

/// What is wrong with a connection.
pub open spec fn connection_fault(item: JsonTree) -> Option<Fault> {
    if !(item is Object) {
        Some(Fault::Config("Maka LLM 连接条目必须是对象"@))
    } else if lacks_text(item, "slug"@) {
        Some(Fault::Config("Maka LLM 连接条目缺少 slug"@))
    } else if lacks_text(item, "providerType"@) {
        Some(Fault::Config("Maka LLM 连接条目缺少 providerType"@))
    } else {
        None
    }
}

/// The first thing that is wrong with connections.
pub open spec fn connections_fault(items: Seq<JsonTree>) -> Option<Fault>
    decreases items.len(),
{
    if items.len() == 0 {
        None
    } else {
        match connections_fault(items.drop_last()) {
            Some(fault) => Some(fault),
            None => connection_fault(items.last()),
        }
    }
}

/// How many connections a document holds, or what is wrong with it.
pub open spec fn checked_connections(tree: JsonTree) -> Result<int, Fault> {
    match (tree, tree.get("connections"@)) {
        (JsonTree::Object(_), Some(JsonTree::Array(items))) => match tree.get("defaultSlug"@) {
            Some(slug) if !(slug is Null || slug is Text) => Err(
                Fault::Config("Maka LLM defaultSlug 必须是字符串或 null"@),
            ),
            _ => match connections_fault(items) {
                Some(fault) => Err(fault),
                None => Ok(items.len() as int),
            },
        },
        (JsonTree::Object(_), _) => Err(
            Fault::Config("Maka LLM 连接配置缺少 connections 数组"@),
        ),
        _ => Err(Fault::Config("Maka LLM 连接配置必须是对象"@)),
    }
}

/// The view of a count or a failure.
pub open spec fn count_result(r: Result<usize, AppError>) -> Result<int, Fault> {
    match r {
        Ok(n) => Ok(n as int),
        Err(error) => Err(error@),
    }
}

/// A text that is missing, no text, or empty.
fn is_text_lacking(item: &Json, key: &str) -> (r: bool)
    ensures
        r == lacks_text(item@, key@),
{
    match item.get_text(key) {
        Some(value) => value.is_empty(),
        None => true,
    }
}

/// What is wrong with a connection.
fn check_connection(item: &Json) -> (r: Result<(), AppError>)
    ensures
        match r {
            Ok(_) => connection_fault(item@) is None,
            Err(error) => connection_fault(item@) == Some(error@),
        },
{
    let object = match item {
        Json::Object(_) => true,
        _ => false,
    };
    if !object {
        return Err(AppError::Config("Maka LLM 连接条目必须是对象".to_owned()));
    }
    if is_text_lacking(item, "slug") {
        return Err(AppError::Config("Maka LLM 连接条目缺少 slug".to_owned()));
    }
    if is_text_lacking(item, "providerType") {
        return Err(AppError::Config("Maka LLM 连接条目缺少 providerType".to_owned()));
    }
    Ok(())
}

proof fn lemma_connections_fault(items: Seq<JsonTree>, i: int)
    requires
        0 <= i < items.len(),
        connections_fault(items.take(i)) is None,
        connection_fault(items[i]) is Some,
    ensures
        connections_fault(items) == connection_fault(items[i]),
    decreases items.len(),
{
    let fewer = items.drop_last();
    if i + 1 == items.len() {
        assert(items.take(i) =~= fewer);
    } else {
        assert(fewer.take(i) =~= items.take(i));
        lemma_connections_fault(fewer, i);
    }
}

/// How many connections a document holds. A document that Maka could not use
/// is refused.
pub fn validate_connections(value: &Json) -> (r: Result<usize, AppError>)
    ensures
        count_result(r) == checked_connections(value@),
{
    match value {
        Json::Object(_) => {},
        _ => return Err(AppError::Config("Maka LLM 连接配置必须是对象".to_owned())),
    }
    let connections = value.get("connections");
    let items = match connections {
        Some(Json::Array(items)) => items,
        _ => return Err(
            AppError::Config("Maka LLM 连接配置缺少 connections 数组".to_owned()),
        ),
    };
    if let Some(slug) = value.get("defaultSlug") {
        let usable = match slug {
            Json::Null => true,
            Json::Text(_) => true,
            _ => false,
        };
        if !usable {
            return Err(
                AppError::Config("Maka LLM defaultSlug 必须是字符串或 null".to_owned()),
            );
        }
    }
    let ghost list = json::opt_json(connections)->0;
    let ghost trees = list->Array_0;
    let mut i: usize = 0;
    assert(trees.take(0) =~= Seq::<JsonTree>::empty());
    while i < items.len()
        invariant
            i <= items@.len(),
            trees.len() == items@.len(),
            forall|k: int| 0 <= k < items@.len() ==> #[trigger] trees[k] == items@[k]@,
            connections_fault(trees.take(i as int)) is None,
            checked_connections(value@) == match connections_fault(trees) {
                Some(fault) => Err(fault),
                None => Ok(trees.len() as int),
            },
        decreases items@.len() - i,
    {
        assert(trees[i as int] == items@[i as int]@);
        assert(trees.take(i + 1).drop_last() =~= trees.take(i as int));
        match check_connection(&items[i]) {
            Ok(_) => {},
            Err(error) => {
                proof {
                    lemma_connections_fault(trees, i as int);
                }
                return Err(error);
            },
        }
        i += 1;
    }
    assert(trees.take(trees.len() as int) =~= trees);
    Ok(items.len())
}

/// All members are texts.
pub open spec fn all_texts(members: Seq<(Seq<char>, JsonTree)>) -> bool {
    forall|i: int| 0 <= i < members.len() ==> (#[trigger] members[i]).1 is Text
}

/// How many credentials a document holds, or what is wrong with it.
pub open spec fn checked_credentials(tree: JsonTree) -> Result<int, Fault> {
    if !(tree is Object) {
        Err(Fault::Config("Maka credentials.json 必须是对象"@))
    } else if tree.get_number("version"@) is None {
        Err(Fault::Config("Maka credentials.json 缺少有效 version"@))
    } else {
        match tree.get("values"@) {
            Some(JsonTree::Object(members)) => if all_texts(members) {
                Ok(members.len() as int)
            } else {
                Err(Fault::Config("Maka credentials.json 包含非字符串凭据"@))
            },
            _ => Err(Fault::Config("Maka credentials.json 缺少 values 对象"@)),
        }
    }
}

/// How many credentials a document holds. A document that Maka could not use
/// is refused.
pub fn validate_credentials(value: &Json) -> (r: Result<usize, AppError>)
    ensures
        count_result(r) == checked_credentials(value@),
{
    match value {
        Json::Object(_) => {},
        _ => return Err(AppError::Config("Maka credentials.json 必须是对象".to_owned())),
    }
    if value.get_number("version").is_none() {
        return Err(AppError::Config("Maka credentials.json 缺少有效 version".to_owned()));
    }
    let values = value.get("values");
    let members = match values {
        Some(Json::Object(members)) => members,
        _ => return Err(AppError::Config("Maka credentials.json 缺少 values 对象".to_owned())),
    };
    let ghost object = json::opt_json(values)->0;
    let ghost trees = object->Object_0;
    let mut i: usize = 0;
    while i < members.len()
        invariant
            i <= members@.len(),
            trees.len() == members@.len(),
            forall|k: int|
                0 <= k < members@.len() ==> #[trigger] trees[k] == (
                    members@[k].0@,
                    json::json_tree(members@[k].1),
                ),
            forall|k: int| 0 <= k < i ==> (#[trigger] trees[k]).1 is Text,
            checked_credentials(value@) == if all_texts(trees) {
                Ok::<int, Fault>(trees.len() as int)
            } else {
                Err(Fault::Config("Maka credentials.json 包含非字符串凭据"@))
            },
        decreases members@.len() - i,
    {
        assert(trees[i as int] == (members@[i as int].0@, json::json_tree(members@[i as int].1)));
        let usable = match &members[i].1 {
            Json::Text(_) => true,
            _ => false,
        };
        if !usable {
            assert(!(trees[i as int].1 is Text));
            return Err(AppError::Config("Maka credentials.json 包含非字符串凭据".to_owned()));
        }
        i += 1;
    }
    Ok(members.len())
}

/// How many credentials an optional document holds.
pub open spec fn checked_optional(tree: Option<JsonTree>) -> Result<int, Fault> {
    match tree {
        Some(tree) => checked_credentials(tree),
        None => Ok(0),
    }
}

/// What a backup counts: its connections and its credentials.
pub open spec fn checked_parts(
    connections: JsonTree,
    credentials: Option<JsonTree>,
) -> Result<(int, int), Fault> {
    match checked_connections(connections) {
        Ok(n) => match checked_optional(credentials) {
            Ok(k) => Ok((n, k)),
            Err(fault) => Err(fault),
        },
        Err(fault) => Err(fault),
    }
}

/// The view of two counts or a failure.
pub open spec fn counts_result(r: Result<(usize, usize), AppError>) -> Result<(int, int), Fault> {
    match r {
        Ok(n) => Ok((n.0 as int, n.1 as int)),
        Err(error) => Err(error@),
    }
}

/// The connections and the credentials of a backup, counted.
fn count_parts(connections: &Json, credentials: &Option<Json>) -> (r: Result<
    (usize, usize),
    AppError,
>)
    ensures
        counts_result(r) == checked_parts(
            connections@,
            match credentials {
                Some(c) => Some(c@),
                None => None,
            },
        ),
{
    let n: usize = match validate_connections(connections) {
        Ok(n) => n,
        Err(error) => return Err(error),
    };
    let k: usize = match credentials {
        Some(credentials) => match validate_credentials(credentials) {
            Ok(k) => k,
            Err(error) => return Err(error),
        },
        None => 0,
    };
    Ok((n, k))
}

/// What is wrong with a backup, or what it counts.
pub open spec fn checked_backup(file: BackupFacts) -> Result<(int, int), Fault> {
    if file.schema_version != BACKUP_SCHEMA_VERSION {
        Err(
            Fault::Config(
                "不支持的 Maka LLM 备份版本: "@ + text::decimal(file.schema_version as nat),
            ),
        )
    } else if file.backup_type != MANUAL_BACKUP@ && file.backup_type != SAFETY_BACKUP@ {
        Err(Fault::Config("Maka LLM 备份类型无效"@))
    } else {
        checked_parts(file.connections, file.credentials)
    }
}

/// The connections and the credentials of a backup that was read, counted. A
/// backup of another version or kind, or with contents that Maka could not
/// use, is refused.
pub fn check_backup_file(file: &MakaLlmBackupFile) -> (r: Result<(usize, usize), AppError>)
    ensures
        counts_result(r) == checked_backup(file@),
{
    if file.schema_version != BACKUP_SCHEMA_VERSION {
        return Err(
            AppError::Config(
                text::joined(
                    "不支持的 Maka LLM 备份版本: ",
                    text::decimal_of(file.schema_version as u64).as_str(),
                ),
            ),
        );
    }
    if !text::same_text(file.backup_type.as_str(), MANUAL_BACKUP) && !text::same_text(
        file.backup_type.as_str(),
        SAFETY_BACKUP,
    ) {
        return Err(AppError::Config("Maka LLM 备份类型无效".to_owned()));
    }
    let connections = json::json_at(&file.llm_connections);
    let credentials = match &file.credentials {
        Some(value) => Some(json::json_at(value)),
        None => None,
    };
    count_parts(&connections, &credentials)
}

/// A name that a backup may have.
pub open spec fn valid_name(filename: Seq<char>) -> bool {
    &&& text::begins(filename, BACKUP_PREFIX@)
    &&& text::finishes(filename, BACKUP_SUFFIX@)
    &&& !text::has(filename, ".."@)
    &&& !text::has(filename, "/"@)
    &&& !text::has(filename, "\\"@)
    &&& !text::has(filename, "\0"@)
}

/// Whether a backup may have that name.
pub fn validate_backup_filename(filename: &str) -> (r: Result<(), AppError>)
    ensures
        match r {
            Ok(_) => valid_name(filename@),
            Err(error) => !valid_name(filename@) && error@ == Fault::InvalidInput(
                "Maka LLM 备份文件名无效"@,
            ),
        },
{
    let valid = text::starts_with(filename, BACKUP_PREFIX) && text::ends_with(
        filename,
        BACKUP_SUFFIX,
    ) && !text::contains(filename, "..") && !text::contains(filename, "/") && !text::contains(
        filename,
        "\\",
    ) && !text::contains(filename, "\0");
    if !valid {
        return Err(AppError::InvalidInput("Maka LLM 备份文件名无效".to_owned()));
    }
    Ok(())
}

/// A backup's name never leads out of the directory of backups: its path has
/// the parts of the directory, and then the name.
pub proof fn law_backup_stays_in_its_directory(dir: Seq<char>, filename: Seq<char>)
    requires
        valid_name(filename),
    ensures
        paths::parts(paths::inside(dir, filename)) == paths::parts(dir).push(filename),
        paths::name_of(paths::inside(dir, filename)) == Some(filename),
{
    reveal_strlit("/");
    reveal_strlit(".");
    reveal_strlit("..");
    reveal_strlit("maka_llm_");
    assert("/"@ =~= seq!['/']);
    text::lemma_found_from(filename, "/"@, 0);
    assert forall|i: int| 0 <= i < filename.len() implies #[trigger] filename[i] != '/' by {
        if filename[i] == '/' {
            assert(filename.subrange(i, i + 1) =~= "/"@);
            assert(text::occurs_at(filename, "/"@, i));
        }
    }
    assert(filename.subrange(0, 9)[0] == 'm');
    assert(filename[0] == 'm');
    assert("."@[0] == '.');
    assert(".."@[0] == '.');
    paths::law_name_stays_inside(dir, filename);
}

/// The name of a backup without its end.
pub open spec fn name_base(backup_type: Seq<char>, stamp: Seq<char>) -> Seq<char> {
    BACKUP_PREFIX@ + stamp + if backup_type == SAFETY_BACKUP@ {
        "_safety"@
    } else {
        ""@
    }
}

/// The name of a backup with a number.
pub open spec fn numbered(base: Seq<char>, n: int) -> Seq<char> {
    base + "_"@ + text::decimal(n as nat) + BACKUP_SUFFIX@
}

/// The highest number that a backup's name is given.
pub const MAX_SEQUENCE: u64 = 9999;

/// The first numbered name from `n` on that is not taken; where all are, the
/// name with `unique`.
pub open spec fn free_from(
    base: Seq<char>,
    taken: Seq<Seq<char>>,
    unique: Seq<char>,
    n: int,
) -> Seq<char>
    decreases MAX_SEQUENCE + 1 - n,
{
    if n > MAX_SEQUENCE {
        base + "_"@ + unique + BACKUP_SUFFIX@
    } else if !taken.contains(numbered(base, n)) {
        numbered(base, n)
    } else {
        free_from(base, taken, unique, n + 1)
    }
}

/// The name of a new backup where `taken` are the names in use.
pub open spec fn free_name(
    backup_type: Seq<char>,
    stamp: Seq<char>,
    taken: Seq<Seq<char>>,
    unique: Seq<char>,
) -> Seq<char> {
    let base = name_base(backup_type, stamp);
    if !taken.contains(base + BACKUP_SUFFIX@) {
        base + BACKUP_SUFFIX@
    } else {
        free_from(base, taken, unique, 1)
    }
}

/// The name of a new backup. `stamp` is its time, `taken` the names in use,
/// and `unique` a text that no other name holds.
pub fn unique_backup_filename(
    taken: &Vec<String>,
    backup_type: &str,
    stamp: &str,
    unique: &str,
) -> (r: String)
    ensures
        r@ == free_name(backup_type@, stamp@, paths::texts(taken@), unique@),
{
    let suffix = if text::same_text(backup_type, SAFETY_BACKUP) {
        "_safety"
    } else {
        ""
    };
    let base = text::joined3(BACKUP_PREFIX, stamp, suffix);
    let first = text::joined(base.as_str(), BACKUP_SUFFIX);
    if !paths::holds_text(taken, first.as_str()) {
        return first;
    }
    let mut n: u64 = 1;
    while n <= MAX_SEQUENCE
        invariant
            1 <= n <= MAX_SEQUENCE + 1,
            base@ == name_base(backup_type@, stamp@),
            free_name(backup_type@, stamp@, paths::texts(taken@), unique@) == free_from(
                base@,
                paths::texts(taken@),
                unique@,
                n as int,
            ),
        decreases MAX_SEQUENCE + 1 - n,
    {
        let head = text::joined3(base.as_str(), "_", text::decimal_of(n).as_str());
        let candidate = text::joined(head.as_str(), BACKUP_SUFFIX);
        assert(candidate@ == numbered(base@, n as int));
        if !paths::holds_text(taken, candidate.as_str()) {
            return candidate;
        }
        n += 1;
    }
    let head = text::joined3(base.as_str(), "_", unique);
    text::joined(head.as_str(), BACKUP_SUFFIX)
}

/// A new backup takes the place of none, as long as `unique` is in no name.
pub proof fn law_new_backup_overwrites_none(
    backup_type: Seq<char>,
    stamp: Seq<char>,
    taken: Seq<Seq<char>>,
    unique: Seq<char>,
)
    requires
        !taken.contains(name_base(backup_type, stamp) + "_"@ + unique + BACKUP_SUFFIX@),
    ensures
        !taken.contains(free_name(backup_type, stamp, taken, unique)),
{
    lemma_free_from(name_base(backup_type, stamp), taken, unique, 1);
}

proof fn lemma_free_from(base: Seq<char>, taken: Seq<Seq<char>>, unique: Seq<char>, n: int)
    requires
        !taken.contains(base + "_"@ + unique + BACKUP_SUFFIX@),
    ensures
        !taken.contains(free_from(base, taken, unique, n)),
    decreases MAX_SEQUENCE + 1 - n,
{
    if n <= MAX_SEQUENCE && taken.contains(numbered(base, n)) {
        lemma_free_from(base, taken, unique, n + 1);
    }
}

/// A text that any part of a name may hold.
pub open spec fn plain(part: Seq<char>) -> bool {
    forall|i: int|
        0 <= i < part.len() ==> #[trigger] part[i] != '.' && part[i] != '/' && part[i] != '\\'
            && part[i] != '\0'
}

proof fn lemma_plain_number(n: nat)
    ensures
        plain(text::decimal(n)),
    decreases n,
{
    if n >= 10 {
        lemma_plain_number(n / 10);
    }
}

/// A plain text between the beginning and the end of a name makes a valid one.
proof fn lemma_plain_name(middle: Seq<char>)
    requires
        plain(middle),
    ensures
        valid_name(BACKUP_PREFIX@ + middle + BACKUP_SUFFIX@),
{
    reveal_strlit("maka_llm_");
    reveal_strlit(".json");
    reveal_strlit("..");
    reveal_strlit("/");
    reveal_strlit("\\");
    reveal_strlit("\0");
    let name = BACKUP_PREFIX@ + middle + BACKUP_SUFFIX@;
    let end = BACKUP_PREFIX@.len() + middle.len();
    text::lemma_found_from(name, ".."@, 0);
    text::lemma_found_from(name, "/"@, 0);
    text::lemma_found_from(name, "\\"@, 0);
    text::lemma_found_from(name, "\0"@, 0);
    assert(name.subrange(0, BACKUP_PREFIX@.len() as int) =~= BACKUP_PREFIX@);
    assert(name.subrange(end as int, name.len() as int) =~= BACKUP_SUFFIX@);
    assert(plain(BACKUP_PREFIX@));
    assert forall|i: int| 0 <= i < name.len() implies #[trigger] name[i] != '/' && name[i] != '\\'
        && name[i] != '\0' && (name[i] == '.' ==> i == end) by {
        if i < BACKUP_PREFIX@.len() {
            assert(name[i] == BACKUP_PREFIX@[i]);
        } else if i < end {
            assert(name[i] == middle[i - BACKUP_PREFIX@.len()]);
        } else {
            assert(name[i] == BACKUP_SUFFIX@[i - end]);
        }
    }
    assert forall|i: int| !text::occurs_at(name, ".."@, i) by {
        if text::occurs_at(name, ".."@, i) {
            assert(name.subrange(i, i + 2)[0] == name[i]);
            assert(name.subrange(i, i + 2)[1] == name[i + 1]);
        }
    }
    assert forall|i: int| !text::occurs_at(name, "/"@, i) by {
        if text::occurs_at(name, "/"@, i) {
            assert(name.subrange(i, i + 1)[0] == name[i]);
        }
    }
    assert forall|i: int| !text::occurs_at(name, "\\"@, i) by {
        if text::occurs_at(name, "\\"@, i) {
            assert(name.subrange(i, i + 1)[0] == name[i]);
        }
    }
    assert forall|i: int| !text::occurs_at(name, "\0"@, i) by {
        if text::occurs_at(name, "\0"@, i) {
            assert(name.subrange(i, i + 1)[0] == name[i]);
        }
    }
}

proof fn lemma_free_is_valid(base: Seq<char>, taken: Seq<Seq<char>>, unique: Seq<char>, n: int)
    requires
        plain(base),
        plain(unique),
    ensures
        valid_name(free_from(BACKUP_PREFIX@ + base, taken, unique, n)),
    decreases MAX_SEQUENCE + 1 - n,
{
    reveal_strlit("_");
    let whole = BACKUP_PREFIX@ + base;
    let number = text::decimal(n as nat);
    lemma_plain_number(n as nat);
    if n > MAX_SEQUENCE {
        lemma_plain_name(base + "_"@ + unique);
        assert(whole + "_"@ + unique + BACKUP_SUFFIX@ =~= BACKUP_PREFIX@ + (base + "_"@ + unique)
            + BACKUP_SUFFIX@);
    } else if !taken.contains(numbered(whole, n)) {
        lemma_plain_name(base + "_"@ + number);
        assert(numbered(whole, n) =~= BACKUP_PREFIX@ + (base + "_"@ + number) + BACKUP_SUFFIX@);
    } else {
        lemma_free_is_valid(base, taken, unique, n + 1);
    }
}

/// The name of a new backup is one that a backup may have, so that the backup
/// is listed and can be restored, where its time and `unique` are plain.
pub proof fn law_new_backup_has_a_valid_name(
    backup_type: Seq<char>,
    stamp: Seq<char>,
    taken: Seq<Seq<char>>,
    unique: Seq<char>,
)
    requires
        plain(stamp),
        plain(unique),
    ensures
        valid_name(free_name(backup_type, stamp, taken, unique)),
{
    reveal_strlit("_safety");
    reveal_strlit("");
    let kind = if backup_type == SAFETY_BACKUP@ {
        "_safety"@
    } else {
        ""@
    };
    let base = stamp + kind;
    assert(plain(base));
    assert(name_base(backup_type, stamp) =~= BACKUP_PREFIX@ + base);
    lemma_plain_name(base);
    lemma_free_is_valid(base, taken, unique, 1);
}

/// The files of Maka that a backup is made of: where the connections are, and
/// the bytes of both as far as they exist.
#[derive(Debug)]
pub struct MakaSources {
    pub connections_path: String,
    pub connections: Option<Vec<u8>>,
    pub credentials_path: String,
    pub credentials: Option<Vec<u8>>,
}

/// A backup that is to be written, the name that it is written under, and
/// what it counts.
pub struct MakaBackupDraft {
    pub filename: String,
    pub bundle: MakaLlmBackupFile,
    pub connection_count: usize,
    pub credential_count: usize,
}

/// The document in a file, or the failure that names the file.
pub open spec fn file_document(path: Seq<char>, bytes: Seq<u8>) -> Result<JsonTree, Fault> {
    match json::parsed_json_bytes(bytes) {
        Ok(tree) => Ok(tree),
        Err(error) => Err(Fault::Json(path + ": "@ + error)),
    }
}

/// The document in a file.
pub fn read_json_value(path: &str, bytes: &Vec<u8>) -> (r: Result<Json, AppError>)
    ensures
        match r {
            Ok(value) => file_document(path@, bytes@) == Ok::<JsonTree, Fault>(value@),
            Err(error) => file_document(path@, bytes@) == Err::<JsonTree, Fault>(error@),
        },
{
    match json::parse_json_bytes(bytes.as_slice()) {
        Ok(value) => Ok(value),
        Err(error) => Err(AppError::Json(text::joined3(path, ": ", error.as_str()))),
    }
}

/// What the documents of Maka's files count, or why no backup can be made of
/// them. A file that is not there has no document.
pub open spec fn source_counts(
    connections_path: Seq<char>,
    connections: Option<Result<JsonTree, Fault>>,
    credentials: Option<Result<JsonTree, Fault>>,
) -> Result<(int, int), Fault> {
    match connections {
        None => Err(Fault::Config("未找到 Maka LLM 配置: "@ + connections_path)),
        Some(Err(fault)) => Err(fault),
        Some(Ok(tree)) => match checked_connections(tree) {
            Err(fault) => Err(fault),
            Ok(n) => match credentials {
                None => Ok((n, 0)),
                Some(Err(fault)) => Err(fault),
                Some(Ok(tree)) => match checked_credentials(tree) {
                    Ok(k) => Ok((n, k)),
                    Err(fault) => Err(fault),
                },
            },
        },
    }
}

/// The documents of Maka's files.
pub open spec fn source_documents(sources: MakaSources) -> (
    Option<Result<JsonTree, Fault>>,
    Option<Result<JsonTree, Fault>>,
) {
    (
        match sources.connections {
            Some(bytes) => Some(file_document(sources.connections_path@, bytes@)),
            None => None,
        },
        match sources.credentials {
            Some(bytes) => Some(file_document(sources.credentials_path@, bytes@)),
            None => None,
        },
    )
}

/// An outcome of reading a document, as a spec value.
pub open spec fn document_result(r: Option<Result<serde_json::Value, AppError>>) -> Option<
    Result<JsonTree, Fault>,
> {
    match r {
        Some(Ok(value)) => Some(Ok(json::json_content(value))),
        Some(Err(error)) => Some(Err(error@)),
        None => None,
    }
}

/// The backup of documents.
pub open spec fn backup_of(
    connections: JsonTree,
    credentials: Option<JsonTree>,
    backup_type: Seq<char>,
    created_at: Seq<char>,
) -> BackupFacts {
    BackupFacts {
        schema_version: BACKUP_SCHEMA_VERSION,
        backup_type,
        created_at,
        connections,
        credentials,
    }
}

/// `r` is the backup that is to be written of documents, where `counts` is
/// what they count or why none can be made of them.
pub open spec fn drafted(
    r: Result<MakaBackupDraft, AppError>,
    connections: Option<Result<JsonTree, Fault>>,
    credentials: Option<Result<JsonTree, Fault>>,
    counts: Result<(int, int), Fault>,
    backup_type: Seq<char>,
    moment: BackupMoment,
    taken: Seq<Seq<char>>,
) -> bool {
    match (r, counts) {
        (Ok(draft), Ok(n)) => {
            &&& draft.filename@ == free_name(backup_type, moment.stamp@, taken, moment.unique@)
            &&& draft.bundle@ == backup_of(
                connections->0->Ok_0,
                match credentials {
                    Some(document) => Some(document->Ok_0),
                    None => None,
                },
                backup_type,
                moment.created_at@,
            )
            &&& draft.connection_count == n.0
            &&& draft.credential_count == n.1
        },
        (Err(error), Err(fault)) => error@ == fault,
        _ => false,
    }
}

/// The document in a file, as it is kept.
pub(crate) fn document_in(path: &str, bytes: &Vec<u8>) -> (r: Result<serde_json::Value, AppError>)
    ensures
        match r {
            Ok(value) => file_document(path@, bytes@) == Ok::<JsonTree, Fault>(
                json::json_content(value),
            ),
            Err(error) => file_document(path@, bytes@) == Err::<JsonTree, Fault>(error@),
        },
{
    match json::value_from_bytes(bytes.as_slice()) {
        Ok(value) => Ok(value),
        Err(error) => Err(AppError::Json(text::joined3(path, ": ", error.as_str()))),
    }
}

/// The backup that is to be written of documents that were read, or why none
/// can be made of them.
pub fn draft_backup(
    connections_path: &str,
    connections: Option<Result<serde_json::Value, AppError>>,
    credentials: Option<Result<serde_json::Value, AppError>>,
    backup_type: &str,
    moment: &BackupMoment,
    taken: &Vec<String>,
) -> (r: Result<MakaBackupDraft, AppError>)
    ensures
        drafted(
            r,
            document_result(connections),
            document_result(credentials),
            source_counts(
                connections_path@,
                document_result(connections),
                document_result(credentials),
            ),
            backup_type@,
            *moment,
            paths::texts(taken@),
        ),
{
    let llm_connections = match connections {
        None => return Err(
            AppError::Config(text::joined("未找到 Maka LLM 配置: ", connections_path)),
        ),
        Some(Err(error)) => return Err(error),
        Some(Ok(value)) => value,
    };
    let connection_count: usize = match validate_connections(&json::json_at(&llm_connections)) {
        Ok(n) => n,
        Err(error) => return Err(error),
    };
    let credentials = match credentials {
        None => None,
        Some(Err(error)) => return Err(error),
        Some(Ok(value)) => Some(value),
    };
    let credential_count: usize = match &credentials {
        None => 0,
        Some(value) => match validate_credentials(&json::json_at(value)) {
            Ok(k) => k,
            Err(error) => return Err(error),
        },
    };
    Ok(
        MakaBackupDraft {
            filename: unique_backup_filename(
                taken,
                backup_type,
                moment.stamp.as_str(),
                moment.unique.as_str(),
            ),
            bundle: MakaLlmBackupFile {
                schema_version: BACKUP_SCHEMA_VERSION,
                backup_type: backup_type.to_owned(),
                created_at: moment.created_at.as_str().to_owned(),
                llm_connections,
                credentials,
            },
            connection_count,
            credential_count,
        },
    )
}

/// Every backup that is made can be restored: read back as it was drafted, it
/// is valid and counts what its documents counted.
pub proof fn law_backup_can_be_restored(
    connections_path: Seq<char>,
    connections: JsonTree,
    credentials: Option<JsonTree>,
    backup_type: Seq<char>,
    created_at: Seq<char>,
)
    requires
        backup_type == MANUAL_BACKUP@ || backup_type == SAFETY_BACKUP@,
        source_counts(
            connections_path,
            Some(Ok(connections)),
            match credentials {
                Some(tree) => Some(Ok(tree)),
                None => None,
            },
        ) is Ok,
    ensures
        checked_backup(backup_of(connections, credentials, backup_type, created_at))
            == source_counts(
            connections_path,
            Some(Ok(connections)),
            match credentials {
                Some(tree) => Some(Ok(tree)),
                None => None,
            },
        ),
{
}

/// What is in a backup's file, and what the directory says of it.
pub struct BackupCandidate {
    pub filename: String,
    pub is_file: bool,
    pub size_bytes: u64,
    /// The backup, where the file could be read as one.
    pub file: Option<MakaLlmBackupFile>,
}

/// The entry of a candidate, if it is a valid backup.
pub open spec fn entry_of(candidate: BackupCandidate) -> Option<EntryFacts> {
    if !valid_name(candidate.filename@) || !candidate.is_file {
        None
    } else {
        match candidate.file {
            Some(file) => match checked_backup(file@) {
                Ok(n) => Some(
                    EntryFacts {
                        filename: candidate.filename@,
                        size_bytes: candidate.size_bytes,
                        created_at: file.created_at@,
                        backup_type: file.backup_type@,
                        connection_count: n.0,
                        credential_count: n.1,
                        includes_credentials: file.credentials is Some,
                    },
                ),
                Err(_) => None,
            },
            None => None,
        }
    }
}

/// An entry put into its place in a list with the newest first; it comes after
/// those of its own time.
pub open spec fn placed(entries: Seq<EntryFacts>, entry: EntryFacts) -> Seq<EntryFacts>
    decreases entries.len(),
{
    if entries.len() > 0 && text::text_before(entries.last().created_at, entry.created_at) {
        placed(entries.drop_last(), entry).push(entries.last())
    } else {
        entries.push(entry)
    }
}

/// The entries of the candidates that are valid backups, the newest first.
pub open spec fn listing(candidates: Seq<BackupCandidate>) -> Seq<EntryFacts>
    decreases candidates.len(),
{
    if candidates.len() == 0 {
        Seq::empty()
    } else {
        let rest = listing(candidates.drop_last());
        match entry_of(candidates.last()) {
            Some(entry) => placed(rest, entry),
            None => rest,
        }
    }
}

/// No entry is older than one after it.
pub open spec fn newest_first(entries: Seq<EntryFacts>) -> bool {
    forall|i: int, j: int|
        0 <= i < j < entries.len() ==> !text::text_before(
            (#[trigger] entries[i]).created_at,
            (#[trigger] entries[j]).created_at,
        )
}

proof fn lemma_placed(entries: Seq<EntryFacts>, entry: EntryFacts)
    requires
        newest_first(entries),
    ensures
        newest_first(placed(entries, entry)),
        placed(entries, entry).to_multiset() == entries.to_multiset().insert(entry),
    decreases entries.len(),
{
    broadcast use vstd::seq_lib::group_to_multiset_ensures;

    let out = placed(entries, entry);
    if entries.len() > 0 && text::text_before(entries.last().created_at, entry.created_at) {
        let fewer = entries.drop_last();
        let last = entries.last();
        lemma_placed(fewer, entry);
        assert(entries =~= fewer.push(last));
        let front = placed(fewer, entry);
        assert forall|i: int, j: int| 0 <= i < j < out.len() implies !text::text_before(
            (#[trigger] out[i]).created_at,
            (#[trigger] out[j]).created_at,
        ) by {
            if j == front.len() {
                assert(front.contains(front[i]));
                assert(front.to_multiset().count(front[i]) > 0);
                text::law_text_order_total(last.created_at, entry.created_at);
                if front[i] != entry {
                    assert(fewer.to_multiset().count(front[i]) > 0);
                    assert(fewer.contains(front[i]));
                    let k = choose|k: int| 0 <= k < fewer.len() && fewer[k] == front[i];
                    assert(entries[k] == front[i]);
                    assert(entries[entries.len() - 1] == last);
                }
            } else {
                assert(out[i] == front[i] && out[j] == front[j]);
            }
        }
    } else {
        assert forall|i: int, j: int| 0 <= i < j < out.len() implies !text::text_before(
            (#[trigger] out[i]).created_at,
            (#[trigger] out[j]).created_at,
        ) by {
            if j == entries.len() {
                let a = entries[i].created_at;
                let b = entries.last().created_at;
                assert(entries[entries.len() - 1] == entries.last());
                text::law_text_order_total(b, entry.created_at);
                text::law_text_order_total(a, b);
                if text::text_before(a, entry.created_at) && entry.created_at != b {
                    text::law_text_order_transitive(a, entry.created_at, b);
                }
            } else {
                assert(out[i] == entries[i] && out[j] == entries[j]);
            }
        }
    }
}

/// The entries of the candidates that are valid backups, in their order.
pub open spec fn valid_entries(candidates: Seq<BackupCandidate>) -> Seq<EntryFacts>
    decreases candidates.len(),
{
    if candidates.len() == 0 {
        Seq::empty()
    } else {
        let rest = valid_entries(candidates.drop_last());
        match entry_of(candidates.last()) {
            Some(entry) => rest.push(entry),
            None => rest,
        }
    }
}

/// The newest backup is listed first, and no backup is listed before a newer
/// one. Every valid backup is listed once, and nothing else is.
pub proof fn law_listing_is_newest_first(candidates: Seq<BackupCandidate>)
    ensures
        newest_first(listing(candidates)),
        listing(candidates).to_multiset() == valid_entries(candidates).to_multiset(),
    decreases candidates.len(),
{
    broadcast use vstd::seq_lib::group_to_multiset_ensures;

    if candidates.len() > 0 {
        law_listing_is_newest_first(candidates.drop_last());
        if let Some(entry) = entry_of(candidates.last()) {
            lemma_placed(listing(candidates.drop_last()), entry);
        }
    }
}

/// What entries say.
pub open spec fn entries_of(entries: Seq<MakaLlmBackupEntry>) -> Seq<EntryFacts> {
    entries.map_values(|e: MakaLlmBackupEntry| e@)
}

/// The entry of a candidate, if it is a valid backup.
fn entry_from(candidate: &BackupCandidate) -> (r: Option<MakaLlmBackupEntry>)
    ensures
        match r {
            Some(entry) => entry_of(*candidate) == Some(entry@),
            None => entry_of(*candidate) is None,
        },
{
    if validate_backup_filename(candidate.filename.as_str()).is_err() || !candidate.is_file {
        return None;
    }
    let file = match &candidate.file {
        Some(file) => file,
        None => return None,
    };
    match check_backup_file(file) {
        Ok(n) => Some(
            MakaLlmBackupEntry {
                filename: candidate.filename.as_str().to_owned(),
                size_bytes: candidate.size_bytes,
                created_at: file.created_at.as_str().to_owned(),
                backup_type: file.backup_type.as_str().to_owned(),
                connection_count: n.0,
                credential_count: n.1,
                includes_credentials: file.credentials.is_some(),
            },
        ),
        Err(_) => None,
    }
}

/// Puts an entry into its place.
fn place_entry(entries: &mut Vec<MakaLlmBackupEntry>, entry: MakaLlmBackupEntry)
    ensures
        entries_of(final(entries)@) == placed(entries_of(old(entries)@), entry@),
{
    let ghost all = entries_of(entries@);
    let ghost value = entry@;
    let mut i: usize = entries.len();
    assert(all.take(i as int) =~= all);
    assert(placed(all, value) =~= placed(all, value) + all.skip(i as int));
    while i > 0 && text::is_before(
        entries[i - 1].created_at.as_str(),
        entry.created_at.as_str(),
    )
        invariant
            i <= entries@.len(),
            all == entries_of(entries@),
            value == entry@,
            placed(all, value) == placed(all.take(i as int), value) + all.skip(i as int),
        decreases i,
    {
        proof {
            let part = all.take(i as int);
            assert(part.drop_last() =~= all.take(i - 1));
            assert(part.last() == all[i - 1]);
            assert(placed(part, value) =~= placed(all.take(i - 1), value).push(all[i - 1]));
            assert(placed(part, value) + all.skip(i as int) =~= placed(all.take(i - 1), value)
                + all.skip(i - 1));
        }
        i -= 1;
    }
    proof {
        let part = all.take(i as int);
        if i > 0 {
            assert(part.last() == all[i - 1]);
        }
        assert(placed(part, value) =~= part.push(value));
    }
    entries.insert(i, entry);
    assert(entries_of(entries@) =~= all.take(i as int).push(value) + all.skip(i as int));
}

/// The time and the random text that a new backup is named by.
#[derive(Debug)]
pub struct BackupMoment {
    /// The time as the backup keeps it.
    pub created_at: String,
    /// The time as its name shows it.
    pub stamp: String,
    /// A text that no other name holds.
    pub unique: String,
}

/// The directory of Maka's configuration below the user's data.
pub fn maka_workspace_dir(data_dir: Option<&str>) -> (r: Result<String, AppError>)
    ensures
        match (r, data_dir) {
            (Ok(path), Some(dir)) => path@ == paths::inside(dir@, "Maka/workspaces/default"@),
            (Err(error), None) => error@ == Fault::Config("无法定位 Maka 配置目录"@),
            _ => false,
        },
{
    match data_dir {
        Some(dir) => Ok(paths::join_path(dir, "Maka/workspaces/default")),
        None => Err(AppError::Config("无法定位 Maka 配置目录".to_owned())),
    }
}

/// The directory of backups below that of this application.
pub fn maka_backup_dir(app_config_dir: &str) -> (r: String)
    ensures
        r@ == paths::inside(app_config_dir@, "backups/maka-llm"@),
{
    paths::join_path(app_config_dir, "backups/maka-llm")
}

/// Backups of Maka's configuration.
#[derive(Debug)]
pub struct MakaConfigBackupService;

impl MakaConfigBackupService {
    /// The backup that is to be written of Maka's files, under a name that is
    /// not taken.
    pub fn create_backup(
        sources: &MakaSources,
        backup_type: &str,
        moment: &BackupMoment,
        taken: &Vec<String>,
    ) -> (r: Result<MakaBackupDraft, AppError>)
        ensures
            drafted(
                r,
                source_documents(*sources).0,
                source_documents(*sources).1,
                source_counts(
                    sources.connections_path@,
                    source_documents(*sources).0,
                    source_documents(*sources).1,
                ),
                backup_type@,
                *moment,
                paths::texts(taken@),
            ),
    {
        let connections = match &sources.connections {
            Some(bytes) => Some(document_in(sources.connections_path.as_str(), bytes)),
            None => None,
        };
        let credentials = match &sources.credentials {
            Some(bytes) => Some(document_in(sources.credentials_path.as_str(), bytes)),
            None => None,
        };
        draft_backup(
            sources.connections_path.as_str(),
            connections,
            credentials,
            backup_type,
            moment,
            taken,
        )
    }

    /// The valid backups of a directory, the newest first.
    pub fn list_backups(candidates: &Vec<BackupCandidate>) -> (r: Vec<MakaLlmBackupEntry>)
        ensures
            entries_of(r@) == listing(candidates@),
    {
        let mut entries: Vec<MakaLlmBackupEntry> = Vec::new();
        let mut i: usize = 0;
        assert(entries_of(entries@) =~= listing(candidates@.take(0)));
        while i < candidates.len()
            invariant
                i <= candidates@.len(),
                entries_of(entries@) == listing(candidates@.take(i as int)),
            decreases candidates@.len() - i,
        {
            assert(candidates@.take(i + 1).drop_last() =~= candidates@.take(i as int));
            if let Some(entry) = entry_from(&candidates[i]) {
                place_entry(&mut entries, entry);
            }
            i += 1;
        }
        assert(candidates@.take(candidates@.len() as int) =~= candidates@);
        entries
    }

    /// Whether a backup may be deleted: its name is one, and it is there.
    pub fn delete_backup(filename: &str, is_file: bool) -> (r: Result<(), AppError>)
        ensures
            match r {
                Ok(_) => valid_name(filename@) && is_file,
                Err(error) => if !valid_name(filename@) {
                    error@ == Fault::InvalidInput("Maka LLM 备份文件名无效"@)
                } else {
                    !is_file && error@ == Fault::InvalidInput(
                        "Maka LLM 备份不存在: "@ + filename@,
                    )
                },
            },
    {
        match validate_backup_filename(filename) {
            Ok(_) => {},
            Err(error) => return Err(error),
        }
        if !is_file {
            return Err(AppError::InvalidInput(text::joined("Maka LLM 备份不存在: ", filename)));
        }
        Ok(())
    }
}

impl MakaBackupDraft {
    /// The entry of a backup that was written with that size.
    pub fn entry(self, size_bytes: u64) -> (r: MakaLlmBackupEntry)
        ensures
            r@ == (EntryFacts {
                filename: self.filename@,
                size_bytes,
                created_at: self.bundle.created_at@,
                backup_type: self.bundle.backup_type@,
                connection_count: self.connection_count as int,
                credential_count: self.credential_count as int,
                includes_credentials: self.bundle.credentials is Some,
            }),
    {
        MakaLlmBackupEntry {
            filename: self.filename,
            size_bytes,
            created_at: self.bundle.created_at,
            backup_type: self.bundle.backup_type,
            connection_count: self.connection_count,
            credential_count: self.credential_count,
            includes_credentials: self.bundle.credentials.is_some(),
        }
    }
}

/// What came of an attempt to take the lock on the credentials.
#[derive(Debug)]
pub enum LockAttempt {
    Created,
    AlreadyExists,
    Failed(AppError),
}

/// What is to be done about the lock.
#[derive(Clone, Copy, Debug, PartialEq, Eq, Structural)]
pub enum LockStep {
    Acquired,
    TryAgain,
}

/// The path of the lock on a file.
pub fn lock_path(path: &str) -> (r: String)
    ensures
        r@ == path@ + ".lock"@,
{
    text::joined(path, ".lock")
}

/// What is to be done after an attempt to take the lock. A lock that another
/// writer holds is never taken: it is waited for, and given up for at the
/// deadline.
pub fn lock_step(lock: &str, attempt: LockAttempt, expired: bool) -> (r: Result<LockStep, AppError>)
    ensures
        match attempt {
            LockAttempt::Created => r == Ok::<LockStep, AppError>(LockStep::Acquired),
            LockAttempt::AlreadyExists => if expired {
                r matches Err(error) && error@ == Fault::Lock(
                    "Maka 正在更新凭据（"@ + lock@ + "），请稍后重试"@,
                )
            } else {
                r == Ok::<LockStep, AppError>(LockStep::TryAgain)
            },
            LockAttempt::Failed(error) => r == Err::<LockStep, AppError>(error),
        },
{
    match attempt {
        LockAttempt::Created => Ok(LockStep::Acquired),
        LockAttempt::AlreadyExists => {
            if expired {
                return Err(
                    AppError::Lock(text::joined3("Maka 正在更新凭据（", lock, "），请稍后重试")),
                );
            }
            Ok(LockStep::TryAgain)
        },
        LockAttempt::Failed(error) => Err(error),
    }
}

/// The name of the file that new contents are written to before they take
/// the place of the old.
pub fn temp_name(filename: &str, unique: &str) -> (r: String)
    ensures
        r@ == "."@ + filename@ + "."@ + unique@ + ".tmp"@,
{
    let head = text::joined3(".", filename, ".");
    text::joined3(head.as_str(), unique, ".tmp")
}

/// A connection that Maka can use: an object with a slug and the type of its
/// provider, neither of them empty.
pub open spec fn usable_connection(item: JsonTree) -> bool {
    &&& item is Object
    &&& item.get("slug"@) matches Some(JsonTree::Text(slug)) && slug.len() > 0
    &&& item.get("providerType"@) matches Some(JsonTree::Text(provider)) && provider.len() > 0
}

/// What may stand for the default connection: nothing, null or a text.
pub open spec fn usable_default(slug: Option<JsonTree>) -> bool {
    slug is None || slug == Some(JsonTree::Null) || slug matches Some(JsonTree::Text(_))
}

proof fn lemma_all_usable(items: Seq<JsonTree>)
    ensures
        connections_fault(items) is None <==> forall|i: int|
            0 <= i < items.len() ==> usable_connection(#[trigger] items[i]),
    decreases items.len(),
{
    if items.len() > 0 {
        let fewer = items.drop_last();
        lemma_all_usable(fewer);
        assert(connection_fault(items.last()) is None <==> usable_connection(items.last()));
        if connections_fault(items) is None {
            assert forall|i: int| 0 <= i < items.len() implies usable_connection(
                #[trigger] items[i],
            ) by {
                if i < fewer.len() {
                    assert(fewer[i] == items[i]);
                }
            }
        }
        if forall|i: int| 0 <= i < items.len() ==> usable_connection(#[trigger] items[i]) {
            assert forall|i: int| 0 <= i < fewer.len() implies usable_connection(
                #[trigger] fewer[i],
            ) by {
                assert(fewer[i] == items[i]);
            }
            assert(usable_connection(items[items.len() - 1]));
        }
    }
}

/// A document of connections is accepted where, and only where, it is an object
/// with an array of usable connections and a usable default. However many
/// connections there are, each of them is counted once.
pub proof fn law_usable_connections_are_counted(tree: JsonTree, items: Seq<JsonTree>)
    ensures
        tree is Object && tree.get("connections"@) == Some(JsonTree::Array(items))
            && usable_default(tree.get("defaultSlug"@)) && (forall|i: int|
            0 <= i < items.len() ==> usable_connection(#[trigger] items[i]))
            ==> checked_connections(tree) == Ok::<int, Fault>(items.len() as int),
        checked_connections(tree) is Ok ==> {
            &&& tree is Object
            &&& usable_default(tree.get("defaultSlug"@))
            &&& tree.get("connections"@) matches Some(JsonTree::Array(own)) && forall|i: int|
                0 <= i < own.len() ==> usable_connection(#[trigger] own[i])
        },
{
    lemma_all_usable(items);
    if let Some(JsonTree::Array(own)) = tree.get("connections"@) {
        lemma_all_usable(own);
    }
}

/// What is wrong with a document of connections is said of the first thing
/// that is wrong: that it is no object, that it has no array, that its default
/// is no text, or what the first connection lacks that is not usable.
pub proof fn law_first_fault_is_named(tree: JsonTree, items: Seq<JsonTree>, i: int)
    ensures
        !(tree is Object) ==> checked_connections(tree) == Err::<int, Fault>(
            Fault::Config("Maka LLM 连接配置必须是对象"@),
        ),
        tree is Object && !(tree.get("connections"@) matches Some(JsonTree::Array(_)))
            ==> checked_connections(tree) == Err::<int, Fault>(
            Fault::Config("Maka LLM 连接配置缺少 connections 数组"@),
        ),
        tree is Object && tree.get("connections"@) == Some(JsonTree::Array(items))
            && !usable_default(tree.get("defaultSlug"@)) ==> checked_connections(tree) == Err::<
            int,
            Fault,
        >(Fault::Config("Maka LLM defaultSlug 必须是字符串或 null"@)),
        tree is Object && tree.get("connections"@) == Some(JsonTree::Array(items))
            && usable_default(tree.get("defaultSlug"@)) && 0 <= i < items.len() && (forall|k: int|
            0 <= k < i ==> usable_connection(#[trigger] items[k])) && !usable_connection(items[i])
            ==> checked_connections(tree) == Err::<int, Fault>(
            Fault::Config(
                if !(items[i] is Object) {
                    "Maka LLM 连接条目必须是对象"@
                } else if !(items[i].get("slug"@) matches Some(JsonTree::Text(slug)) && slug.len()
                    > 0) {
                    "Maka LLM 连接条目缺少 slug"@
                } else {
                    "Maka LLM 连接条目缺少 providerType"@
                },
            ),
        ),
{
    if 0 <= i < items.len() {
        let part = items.take(i);
        lemma_all_usable(part);
        if (forall|k: int| 0 <= k < i ==> usable_connection(#[trigger] items[k]))
            && !usable_connection(items[i]) {
            assert forall|k: int| 0 <= k < part.len() implies usable_connection(
                #[trigger] part[k],
            ) by {
                assert(part[k] == items[k]);
            }
            assert(connection_fault(items[i]) is Some);
            lemma_connections_fault(items, i);
        }
    }
}

/// A document of credentials is accepted where, and only where, it is an object
/// with a number for its version and an object of texts for its values, and
/// each of the values is counted once.
pub proof fn law_usable_credentials_are_counted(
    tree: JsonTree,
    members: Seq<(Seq<char>, JsonTree)>,
)
    ensures
        tree is Object && (tree.get("version"@) matches Some(JsonTree::Number(_))) && tree.get(
            "values"@,
        ) == Some(JsonTree::Object(members)) && (forall|i: int|
            0 <= i < members.len() ==> (#[trigger] members[i]).1 is Text) ==> checked_credentials(
            tree,
        ) == Ok::<int, Fault>(members.len() as int),
        checked_credentials(tree) is Ok ==> {
            &&& tree is Object
            &&& tree.get("version"@) matches Some(JsonTree::Number(_))
            &&& tree.get("values"@) matches Some(JsonTree::Object(own)) && forall|i: int|
                0 <= i < own.len() ==> (#[trigger] own[i]).1 is Text
        },
        !(tree is Object) ==> checked_credentials(tree) == Err::<int, Fault>(
            Fault::Config("Maka credentials.json 必须是对象"@),
        ),
        tree is Object && !(tree.get("version"@) matches Some(JsonTree::Number(_)))
            ==> checked_credentials(tree) == Err::<int, Fault>(
            Fault::Config("Maka credentials.json 缺少有效 version"@),
        ),
        tree is Object && (tree.get("version"@) matches Some(JsonTree::Number(_))) && !(tree.get(
            "values"@,
        ) matches Some(JsonTree::Object(_))) ==> checked_credentials(tree) == Err::<int, Fault>(
            Fault::Config("Maka credentials.json 缺少 values 对象"@),
        ),
        tree is Object && (tree.get("version"@) matches Some(JsonTree::Number(_))) && tree.get(
            "values"@,
        ) == Some(JsonTree::Object(members)) && (exists|i: int|
            0 <= i < members.len() && !((#[trigger] members[i]).1 is Text)) ==> checked_credentials(
            tree,
        ) == Err::<int, Fault>(Fault::Config("Maka credentials.json 包含非字符串凭据"@)),
{
}

/// Of files of Maka that hold a usable document each, a backup can be made: it
/// counts all connections and all credentials, of either kind of backup it is
/// valid, and it is listed with those counts. Without the file of connections
/// there is none to make, and without that of credentials there are none to
/// count.
pub proof fn law_usable_files_are_backed_up(
    path: Seq<char>,
    connections: JsonTree,
    items: Seq<JsonTree>,
    credentials: Option<JsonTree>,
    members: Seq<(Seq<char>, JsonTree)>,
    backup_type: Seq<char>,
    created_at: Seq<char>,
)
    requires
        connections is Object,
        connections.get("connections"@) == Some(JsonTree::Array(items)),
        usable_default(connections.get("defaultSlug"@)),
        forall|i: int| 0 <= i < items.len() ==> usable_connection(#[trigger] items[i]),
        match credentials {
            Some(tree) => tree is Object && (tree.get("version"@) matches Some(JsonTree::Number(_)))
                && tree.get("values"@) == Some(JsonTree::Object(members)) && forall|i: int|
                0 <= i < members.len() ==> (#[trigger] members[i]).1 is Text,
            None => members.len() == 0,
        },
        backup_type == "manual"@ || backup_type == "safety"@,
    ensures
        ({
            let documents = match credentials {
                Some(tree) => Some(Ok::<JsonTree, Fault>(tree)),
                None => None,
            };
            let counts = (items.len() as int, members.len() as int);
            &&& source_counts(path, Some(Ok(connections)), documents) == Ok::<(int, int), Fault>(
                counts,
            )
            &&& checked_backup(backup_of(connections, credentials, backup_type, created_at)) == Ok::<
                (int, int),
                Fault,
            >(counts)
            &&& source_counts(path, None, documents) is Err
        }),
{
    law_usable_connections_are_counted(connections, items);
    if let Some(tree) = credentials {
        law_usable_credentials_are_counted(tree, members);
    }
}

/// A file is listed where, and only where, its name is that of a backup, it is
/// a file, and what is in it is a backup of this version and of a known kind
/// with usable documents. What is listed is what the file says and counts.
pub proof fn law_listed_backup_is_the_file(candidate: BackupCandidate)
    ensures
        match entry_of(candidate) {
            Some(entry) => {
                &&& valid_name(candidate.filename@)
                &&& candidate.is_file
                &&& candidate.file matches Some(file) && {
                    &&& file.schema_version == 1
                    &&& file.backup_type@ == "manual"@ || file.backup_type@ == "safety"@
                    &&& entry.filename == candidate.filename@
                    &&& entry.size_bytes == candidate.size_bytes
                    &&& entry.created_at == file.created_at@
                    &&& entry.backup_type == file.backup_type@
                    &&& entry.includes_credentials == file.credentials is Some
                    &&& checked_connections(file@.connections) == Ok::<int, Fault>(
                        entry.connection_count,
                    )
                    &&& match file@.credentials {
                        Some(tree) => checked_credentials(tree) == Ok::<int, Fault>(
                            entry.credential_count,
                        ),
                        None => entry.credential_count == 0,
                    }
                }
            },
            None => {
                ||| !valid_name(candidate.filename@)
                ||| !candidate.is_file
                ||| candidate.file is None
                ||| candidate.file matches Some(file) && {
                    ||| file.schema_version != 1
                    ||| file.backup_type@ != "manual"@ && file.backup_type@ != "safety"@
                    ||| checked_connections(file@.connections) is Err
                    ||| file@.credentials matches Some(tree) && checked_credentials(tree) is Err
                }
            },
        },
{
}

/// A name is that of a backup where it begins and ends as backups' names do and
/// holds neither two points in a row nor a slash of either kind nor a zero.
pub proof fn law_names_of_backups(filename: Seq<char>)
    ensures
        valid_name(filename) <==> {
            &&& filename.len() >= 9 && filename.take(9) == "maka_llm_"@
            &&& filename.len() >= 5 && filename.skip(filename.len() - 5) == ".json"@
            &&& forall|i: int|
                0 <= i < filename.len() ==> #[trigger] filename[i] != '/' && filename[i] != '\\'
                    && filename[i] != '\0'
            &&& !(exists|i: int|
                0 <= i < filename.len() - 1 && #[trigger] filename.subrange(i, i + 2) == ".."@)
        },
{
    reveal_strlit("maka_llm_");
    reveal_strlit(".json");
    reveal_strlit("..");
    reveal_strlit("/");
    reveal_strlit("\\");
    reveal_strlit("\0");
    if filename.len() >= 9 {
        assert(filename.subrange(0, 9) =~= filename.take(9));
    }
    if filename.len() >= 5 {
        assert(filename.subrange(filename.len() - 5, filename.len() as int) =~= filename.skip(
            filename.len() - 5,
        ));
    }
    text::law_found(filename, ".."@);
    text::law_found(filename, "/"@);
    text::law_found(filename, "\\"@);
    text::law_found(filename, "\0"@);
    assert forall|i: int| 0 <= i < filename.len() implies {
        &&& #[trigger] filename[i] == '/' ==> text::has(filename, "/"@)
        &&& filename[i] == '\\' ==> text::has(filename, "\\"@)
        &&& filename[i] == '\0' ==> text::has(filename, "\0"@)
    } by {
        let one = filename.subrange(i, i + 1);
        assert(one.len() == 1 && one[0] == filename[i]);
        if filename[i] == '/' {
            assert(one =~= "/"@);
            assert(text::occurs_at(filename, "/"@, i));
        }
        if filename[i] == '\\' {
            assert(one =~= "\\"@);
            assert(text::occurs_at(filename, "\\"@, i));
        }
        if filename[i] == '\0' {
            assert(one =~= "\0"@);
            assert(text::occurs_at(filename, "\0"@, i));
        }
    }
    if text::has(filename, "/"@) {
        let i = text::found(filename, "/"@)->0;
        assert(filename.subrange(i, i + 1)[0] == filename[i]);
    }
    if text::has(filename, "\\"@) {
        let i = text::found(filename, "\\"@)->0;
        assert(filename.subrange(i, i + 1)[0] == filename[i]);
    }
    if text::has(filename, "\0"@) {
        let i = text::found(filename, "\0"@)->0;
        assert(filename.subrange(i, i + 1)[0] == filename[i]);
    }
    if exists|i: int|
        0 <= i < filename.len() - 1 && #[trigger] filename.subrange(i, i + 2) == ".."@ {
        let i = choose|i: int|
            0 <= i < filename.len() - 1 && #[trigger] filename.subrange(i, i + 2) == ".."@;
        assert(text::occurs_at(filename, ".."@, i));
    }
    if text::has(filename, ".."@) {
        let i = text::found(filename, ".."@)->0;
        assert(filename.subrange(i, i + 2) == ".."@);
    }
}

/// A new backup is named by its time, a safety backup as such, and where that
/// name is taken, by the lowest number that is free.
pub proof fn law_new_backup_is_named_by_its_time(
    backup_type: Seq<char>,
    stamp: Seq<char>,
    taken: Seq<Seq<char>>,
    unique: Seq<char>,
    n: int,
)
    ensures
        ({
            let base = if backup_type == "safety"@ {
                "maka_llm_"@ + stamp + "_safety"@
            } else {
                "maka_llm_"@ + stamp
            };
            let name = free_name(backup_type, stamp, taken, unique);
            &&& !taken.contains(base + ".json"@) ==> name == base + ".json"@
            &&& taken.contains(base + ".json"@) && 1 <= n <= 9999 && !taken.contains(
                base + "_"@ + text::decimal(n as nat) + ".json"@,
            ) && (forall|k: int|
                1 <= k < n ==> taken.contains(
                    base + "_"@ + #[trigger] text::decimal(k as nat) + ".json"@,
                )) ==> name == base + "_"@ + text::decimal(n as nat) + ".json"@
            &&& taken.contains(base + ".json"@) && (forall|k: int|
                1 <= k <= 9999 ==> taken.contains(
                    base + "_"@ + #[trigger] text::decimal(k as nat) + ".json"@,
                )) ==> name == base + "_"@ + unique + ".json"@
        }),
{
    let base = if backup_type == "safety"@ {
        "maka_llm_"@ + stamp + "_safety"@
    } else {
        "maka_llm_"@ + stamp
    };
    reveal_strlit("");
    assert(name_base(backup_type, stamp) =~= base);
    if 1 <= n <= 9999 {
        if !taken.contains(base + "_"@ + text::decimal(n as nat) + ".json"@) && (forall|k: int|
            1 <= k < n ==> taken.contains(
                base + "_"@ + #[trigger] text::decimal(k as nat) + ".json"@,
            )) {
            lemma_lowest_free(base, taken, unique, 1, n);
        }
    }
    if forall|k: int|
        1 <= k <= 9999 ==> taken.contains(
            base + "_"@ + #[trigger] text::decimal(k as nat) + ".json"@,
        ) {
        lemma_lowest_free(base, taken, unique, 1, 10000);
    }
}

proof fn lemma_lowest_free(
    base: Seq<char>,
    taken: Seq<Seq<char>>,
    unique: Seq<char>,
    from: int,
    n: int,
)
    requires
        1 <= from <= n <= 10000,
        forall|k: int|
            from <= k < n ==> taken.contains(
                base + "_"@ + #[trigger] text::decimal(k as nat) + ".json"@,
            ),
        n <= 9999 ==> !taken.contains(base + "_"@ + text::decimal(n as nat) + ".json"@),
    ensures
        free_from(base, taken, unique, from) == if n <= 9999 {
            base + "_"@ + text::decimal(n as nat) + ".json"@
        } else {
            base + "_"@ + unique + ".json"@
        },
    decreases n - from,
{
    if from < n {
        assert(taken.contains(base + "_"@ + text::decimal(from as nat) + ".json"@));
        lemma_lowest_free(base, taken, unique, from + 1, n);
    }
}

} // verus!
