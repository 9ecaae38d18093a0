//! Reading Cindy's databases: which files they are, what is asked of them,
//! and which of their messages are turns.

use vstd::prelude::*;
use crate::cindy;
use crate::cindy::{CindyBillingKind, CindyTurnUsage, TurnFacts};
use crate::hash;
use crate::paths;
use crate::paths::DirEntry;
use crate::text;
use crate::usage;

verus! {

/// The token counts that Cindy keeps with a turn.
#[derive(Debug)]
pub struct CindyTurnUsageDetails {
    pub input_tokens: Option<u64>,
    pub output_tokens: Option<u64>,
    pub cache_read_tokens: Option<u64>,
    pub cache_create_tokens: Option<u64>,
    pub model: Option<String>,
    pub models: Vec<String>,
    pub duration_ms: Option<u64>,
    pub turn_duration_ms: Option<u64>,
}

/// What Cindy says of a turn's cost.
#[derive(Debug)]
pub struct CindyTurnCost {
    pub approximate: Option<bool>,
    pub kind: Option<String>,
}

/// What Cindy keeps with an agent's message. The cost is the bits of an IEEE
/// 754 double.
#[derive(Debug)]
pub struct CindyAgentMeta {
    pub turn_completed: Option<bool>,
    pub turn_usage_details: Option<CindyTurnUsageDetails>,
    pub turn_cost_usd: Option<u64>,
    pub turn_cost: Option<CindyTurnCost>,
}

/// A message of an agent, with what its session says of it.
#[derive(Debug)]
pub struct CindyTurnRow {
    pub message_id: String,
    pub session_id: String,
    pub created_at_ms: i64,
    pub message_agent: Option<String>,
    pub session_agent: String,
    pub session_model: String,
    pub sdk_session_id: Option<String>,
    pub parent_session_id: Option<String>,
    pub session_created_at: i64,
}

/// A cost that is an estimate.
pub open spec fn estimated(cost: CindyTurnCost) -> bool {
    cost.approximate == Some(true) || match text::opt_text(cost.kind) {
        Some(kind) => text::ascii_lowered(kind) == text::ascii_lowered("value-estimate"@),
        None => false,
    }
}

/// How a turn was paid for, as far as its cost tells: estimates are made for
/// subscriptions, and an exact cost was billed.
pub open spec fn billing_hint(meta: CindyAgentMeta) -> Option<CindyBillingKind> {
    let by_amount = match usage::usable_cost(meta.turn_cost_usd) {
        Some(_) => Some(CindyBillingKind::Subscription),
        None => None,
    };
    match meta.turn_cost {
        Some(cost) => if estimated(cost) {
            Some(CindyBillingKind::Subscription)
        } else if cost.approximate == Some(false) {
            Some(CindyBillingKind::Api)
        } else {
            by_amount
        },
        None => by_amount,
    }
}

/// How a turn was paid for, as far as its cost tells.
pub fn cindy_turn_billing_hint(meta: &CindyAgentMeta) -> (r: Option<CindyBillingKind>)
    ensures
        r == billing_hint(*meta),
{
    if let Some(cost) = &meta.turn_cost {
        let by_kind = match &cost.kind {
            Some(kind) => text::eq_ignore_ascii_case(kind.as_str(), "value-estimate"),
            None => false,
        };
        if cost.approximate == Some(true) || by_kind {
            return Some(CindyBillingKind::Subscription);
        }
        if cost.approximate == Some(false) {
            return Some(CindyBillingKind::Api);
        }
    }
    match usage::finite_non_negative(meta.turn_cost_usd) {
        Some(_) => Some(CindyBillingKind::Subscription),
        None => None,
    }
}

/// The name of the account that a database belongs to.
pub open spec fn account_of(path: Seq<char>) -> Seq<char> {
    match paths::name_of(path) {
        Some(name) => name,
        None => hash::short_hash(seq![path]),
    }
}

/// The name of the account that a database belongs to.
pub fn cindy_account_id(path: &str) -> (r: String)
    ensures
        r@ == account_of(path@),
{
    match paths::file_name(path) {
        Some(name) => name,
        None => {
            let parts: Vec<&str> = vec![path];
            assert(hash::views(parts@) =~= seq![path@]);
            hash::cindy_short_hash(&parts)
        },
    }
}

/// Whether a turn was given no token at all.
pub open spec fn no_tokens(details: CindyTurnUsageDetails) -> bool {
    &&& usage::token_count(details.input_tokens) == 0
    &&& usage::token_count(details.output_tokens) == 0
    &&& usage::token_count(details.cache_read_tokens) == 0
    &&& usage::token_count(details.cache_create_tokens) == 0
}

/// The first of two names that is not blank, or else the second.
pub open spec fn name_or(name: Option<Seq<char>>, other: Seq<char>) -> Seq<char> {
    match name {
        Some(value) => if text::blank(value) {
            other
        } else {
            value
        },
        None => other,
    }
}

/// Whether a message is a copy of one that an earlier session holds.
pub open spec fn copied(row: CindyTurnRow) -> bool {
    row.parent_session_id is Some && row.created_at_ms < row.session_created_at
}

/// The turn that a message is, if it is one: completed, not a copy, of one
/// model, and with tokens. `moment` is its day and its second in local time.
pub open spec fn turn_of(
    account: Seq<char>,
    row: CindyTurnRow,
    meta: CindyAgentMeta,
    moment: Option<(Seq<char>, i64)>,
) -> Option<TurnFacts> {
    if copied(row) || meta.turn_completed != Some(true) {
        None
    } else {
        match (meta.turn_usage_details, moment) {
            (Some(details), Some(local)) => if details.models@.len() > 1 || no_tokens(details) {
                None
            } else {
                Some(
                    TurnFacts {
                        request_id: "cindy:turn:"@ + hash::short_hash(
                            seq![account, "turn"@, row.message_id@],
                        ),
                        day: local.0,
                        agent_kind: name_or(
                            text::opt_text(row.message_agent),
                            row.session_agent@,
                        ),
                        canonical_model: cindy::canonical_model(
                            name_or(text::opt_text(details.model), row.session_model@),
                        ),
                        billing_hint: billing_hint(meta),
                        session_id: "cindy:"@ + hash::short_hash(seq![account]) + ":"@
                            + row.session_id@,
                        sdk_session_id: text::opt_text(row.sdk_session_id),
                        created_at: local.1,
                        duration_ms: usage::duration_count(
                            usage::either_count(details.duration_ms, details.turn_duration_ms),
                        ),
                        input_tokens: usage::token_count(details.input_tokens),
                        output_tokens: usage::token_count(details.output_tokens),
                        cache_read_tokens: usage::token_count(details.cache_read_tokens),
                        cache_create_tokens: usage::token_count(details.cache_create_tokens),
                    },
                )
            },
            _ => None,
        }
    }
}

/// The view of a day and a second.
pub open spec fn moment_of(moment: Option<(String, i64)>) -> Option<(Seq<char>, i64)> {
    match moment {
        Some(local) => Some((local.0@, local.1)),
        None => None,
    }
}

fn first_name(name: Option<String>, other: String) -> (r: String)
    ensures
        r@ == name_or(text::opt_text(name), other@),
{
    match name {
        Some(value) => if text::is_blank(value.as_str()) {
            other
        } else {
            value
        },
        None => other,
    }
}

/// The turn that a message is, if it is one.
pub fn cindy_turn(
    account_id: &str,
    row: CindyTurnRow,
    meta: CindyAgentMeta,
    moment: Option<(String, i64)>,
) -> (r: Option<CindyTurnUsage>)
    ensures
        match r {
            Some(turn) => turn_of(account_id@, row, meta, moment_of(moment)) == Some(turn@),
            None => turn_of(account_id@, row, meta, moment_of(moment)) is None,
        },
{
    if row.parent_session_id.is_some() && row.created_at_ms < row.session_created_at {
        return None;
    }
    if meta.turn_completed != Some(true) {
        return None;
    }
    let billing_hint = cindy_turn_billing_hint(&meta);
    let details = match meta.turn_usage_details {
        Some(details) => details,
        None => return None,
    };
    if details.models.len() > 1 {
        return None;
    }
    let input_tokens: u32 = usage::token_u32(details.input_tokens);
    let output_tokens: u32 = usage::token_u32(details.output_tokens);
    let cache_read_tokens: u32 = usage::token_u32(details.cache_read_tokens);
    let cache_create_tokens: u32 = usage::token_u32(details.cache_create_tokens);
    if input_tokens == 0 && output_tokens == 0 && cache_read_tokens == 0 && cache_create_tokens
        == 0 {
        return None;
    }
    let local = match moment {
        Some(local) => local,
        None => return None,
    };
    let account: Vec<&str> = vec![account_id];
    assert(hash::views(account@) =~= seq![account_id@]);
    let message: Vec<&str> = vec![account_id, "turn", row.message_id.as_str()];
    assert(hash::views(message@) =~= seq![account_id@, "turn"@, row.message_id@]);
    let session = text::joined3("cindy:", hash::cindy_short_hash(&account).as_str(), ":");
    let model = first_name(details.model, row.session_model);
    let agent_kind = first_name(row.message_agent, row.session_agent);
    Some(
        CindyTurnUsage {
            request_id: text::joined("cindy:turn:", hash::cindy_short_hash(&message).as_str()),
            day: local.0,
            agent_kind,
            canonical_model: cindy::canonical_cindy_model(model.as_str()),
            billing_hint,
            session_id: text::joined(session.as_str(), row.session_id.as_str()),
            sdk_session_id: row.sdk_session_id,
            created_at: local.1,
            duration_ms: usage::duration_i64(
                usage::first_count(details.duration_ms, details.turn_duration_ms),
            ),
            input_tokens,
            output_tokens,
            cache_read_tokens,
            cache_create_tokens,
        },
    )
}

/// What a query asks for: `known` where the table has such a column, else
/// what stands in for it.
pub open spec fn asked(
    columns: Seq<Seq<char>>,
    column: Seq<char>,
    known: Seq<char>,
    other: Seq<char>,
) -> Seq<char> {
    if columns.contains(column) {
        known
    } else {
        other
    }
}

fn ask<'a>(columns: &Vec<String>, column: &str, known: &'a str, other: &'a str) -> (r: &'a str)
    ensures
        r@ == asked(paths::texts(columns@), column@, known@, other@),
{
    if paths::holds_text(columns, column) {
        known
    } else {
        other
    }
}

/// The columns without which a table of daily totals is of no use.
pub open spec fn daily_columns(columns: Seq<Seq<char>>) -> bool {
    &&& columns.contains("day"@)
    &&& columns.contains("agent_kind"@)
    &&& columns.contains("model"@)
    &&& columns.contains("input_tokens"@)
    &&& columns.contains("output_tokens"@)
    &&& columns.contains("cache_read_tokens"@)
    &&& columns.contains("cache_create_tokens"@)
}

/// The query for the daily totals of a table with these columns.
pub open spec fn daily_query(columns: Seq<Seq<char>>) -> Seq<char> {
    let currency = asked(
        columns,
        "cost_currency"@,
        "COALESCE(cost_currency, 'USD')"@,
        "'USD'"@,
    );
    "SELECT day, agent_kind, model, "@ + asked(columns, "cost_usd"@, "cost_usd"@, "0"@) + ", "@
        + asked(columns, "cost_amount"@, "cost_amount"@, "0"@) + ", "@ + currency + ", "@ + asked(
        columns,
        "cost_is_approximate"@,
        "cost_is_approximate"@,
        "0"@,
    )
        + ", input_tokens, output_tokens, cache_read_tokens, cache_create_tokens FROM daily_model_usage ORDER BY day, agent_kind, model, "@
        + currency
}

/// The query for the daily totals; none where the table has not the columns
/// that it takes.
pub fn cindy_daily_query(columns: &Vec<String>) -> (r: Option<String>)
    ensures
        text::opt_text(r) == if daily_columns(paths::texts(columns@)) {
            Some(daily_query(paths::texts(columns@)))
        } else {
            None
        },
{
    if !paths::holds_text(columns, "day") || !paths::holds_text(columns, "agent_kind")
        || !paths::holds_text(columns, "model") || !paths::holds_text(columns, "input_tokens")
        || !paths::holds_text(columns, "output_tokens") || !paths::holds_text(
        columns,
        "cache_read_tokens",
    ) || !paths::holds_text(columns, "cache_create_tokens") {
        return None;
    }
    let currency = ask(
        columns,
        "cost_currency",
        "COALESCE(cost_currency, 'USD')",
        "'USD'",
    );
    let mut sql = "SELECT day, agent_kind, model, ".to_owned();
    sql.append(ask(columns, "cost_usd", "cost_usd", "0"));
    sql.append(", ");
    sql.append(ask(columns, "cost_amount", "cost_amount", "0"));
    sql.append(", ");
    sql.append(currency);
    sql.append(", ");
    sql.append(ask(columns, "cost_is_approximate", "cost_is_approximate", "0"));
    sql.append(
        ", input_tokens, output_tokens, cache_read_tokens, cache_create_tokens FROM daily_model_usage ORDER BY day, agent_kind, model, ",
    );
    sql.append(currency);
    Some(sql)
}

/// The columns without which messages tell of no turns.
pub open spec fn turn_columns(messages: Seq<Seq<char>>, sessions: Seq<Seq<char>>) -> bool {
    &&& messages.contains("id"@)
    &&& messages.contains("session_id"@)
    &&& messages.contains("role"@)
    &&& messages.contains("created_at"@)
    &&& messages.contains("agent_meta"@)
    &&& sessions.contains("id"@)
}

/// The query for the agents' messages since a point in time.
pub open spec fn turn_query(messages: Seq<Seq<char>>, sessions: Seq<Seq<char>>) -> Seq<char> {
    "SELECT m.id, m.session_id, m.created_at, m.agent_meta, "@ + asked(
        messages,
        "agent_kind"@,
        "m.agent_kind"@,
        "NULL"@,
    ) + ", "@ + asked(
        sessions,
        "agent_kind"@,
        "COALESCE(s.agent_kind, 'unknown')"@,
        "'unknown'"@,
    ) + ", "@ + asked(sessions, "model"@, "COALESCE(s.model, 'unknown')"@, "'unknown'"@) + ", "@
        + asked(sessions, "sdk_session_id"@, "s.sdk_session_id"@, "NULL"@) + ", "@ + asked(
        sessions,
        "parent_session_id"@,
        "s.parent_session_id"@,
        "NULL"@,
    ) + ", "@ + asked(sessions, "created_at"@, "s.created_at"@, "0"@)
        + " FROM messages m JOIN sessions s ON s.id = m.session_id WHERE m.role = 'assistant' AND m.agent_meta IS NOT NULL AND m.created_at >= ?1 ORDER BY m.created_at, m.id"@
}

/// The query for the agents' messages; none where the tables have not the
/// columns that it takes.
pub fn cindy_turn_query(messages: &Vec<String>, sessions: &Vec<String>) -> (r: Option<String>)
    ensures
        text::opt_text(r) == if turn_columns(paths::texts(messages@), paths::texts(sessions@)) {
            Some(turn_query(paths::texts(messages@), paths::texts(sessions@)))
        } else {
            None
        },
{
    if !paths::holds_text(messages, "id") || !paths::holds_text(messages, "session_id")
        || !paths::holds_text(messages, "role") || !paths::holds_text(messages, "created_at")
        || !paths::holds_text(messages, "agent_meta") || !paths::holds_text(sessions, "id") {
        return None;
    }
    let mut sql = "SELECT m.id, m.session_id, m.created_at, m.agent_meta, ".to_owned();
    sql.append(ask(messages, "agent_kind", "m.agent_kind", "NULL"));
    sql.append(", ");
    sql.append(
        ask(sessions, "agent_kind", "COALESCE(s.agent_kind, 'unknown')", "'unknown'"),
    );
    sql.append(", ");
    sql.append(ask(sessions, "model", "COALESCE(s.model, 'unknown')", "'unknown'"));
    sql.append(", ");
    sql.append(ask(sessions, "sdk_session_id", "s.sdk_session_id", "NULL"));
    sql.append(", ");
    sql.append(ask(sessions, "parent_session_id", "s.parent_session_id", "NULL"));
    sql.append(", ");
    sql.append(ask(sessions, "created_at", "s.created_at", "0"));
    sql.append(
        " FROM messages m JOIN sessions s ON s.id = m.session_id WHERE m.role = 'assistant' AND m.agent_meta IS NOT NULL AND m.created_at >= ?1 ORDER BY m.created_at, m.id",
    );
    Some(sql)
}

/// A directory that may hold Cindy's databases.
#[derive(Debug)]
pub struct CindyDir {
    pub path: String,
    pub entries: Vec<DirEntry>,
}

/// An entry that is the database of an account.
pub open spec fn is_database(entry: DirEntry) -> bool {
    entry.is_file && text::begins(entry.name@, "cindy-"@) && text::finishes(entry.name@, ".db"@)
}

/// The names of the databases among the entries of a directory.
pub open spec fn database_names(entries: Seq<DirEntry>) -> Seq<Seq<char>>
    decreases entries.len(),
{
    if entries.len() == 0 {
        Seq::empty()
    } else {
        let rest = database_names(entries.drop_last());
        if is_database(entries.last()) {
            rest.push(entries.last().name@)
        } else {
            rest
        }
    }
}

/// The names of the databases of a directory, in order.
pub fn collect_cindy_databases(entries: &Vec<DirEntry>) -> (r: Vec<String>)
    ensures
        paths::texts(r@) == paths::in_order(database_names(entries@)),
{
    let mut names: Vec<String> = Vec::new();
    let mut i: usize = 0;
    assert(paths::texts(names@) =~= database_names(entries@.take(0)));
    while i < entries.len()
        invariant
            i <= entries@.len(),
            paths::texts(names@) == database_names(entries@.take(i as int)),
        decreases entries@.len() - i,
    {
        let ghost before = paths::texts(names@);
        let name = entries[i].name.as_str();
        assert(entries@.take(i + 1).drop_last() =~= entries@.take(i as int));
        if entries[i].is_file && text::starts_with(name, "cindy-") && text::ends_with(name, ".db") {
            names.push(name.to_owned());
            assert(paths::texts(names@) =~= before.push(name@));
        }
        i += 1;
    }
    assert(entries@.take(entries@.len() as int) =~= entries@);
    paths::sort_texts(names)
}

/// The databases that were found: the names that were seen, and the path that
/// each was first seen at.
pub struct FoundDatabases {
    pub names: Seq<Seq<char>>,
    pub paths: Seq<Seq<char>>,
}

/// The databases found so far, with those of one directory more. An account
/// that was seen before keeps its first path.
pub open spec fn with_names(
    found: FoundDatabases,
    dir: Seq<char>,
    names: Seq<Seq<char>>,
) -> FoundDatabases
    decreases names.len(),
{
    if names.len() == 0 {
        found
    } else {
        let rest = with_names(found, dir, names.drop_last());
        if rest.names.contains(names.last()) {
            rest
        } else {
            FoundDatabases {
                names: rest.names.push(names.last()),
                paths: rest.paths.push(paths::inside(dir, names.last())),
            }
        }
    }
}

/// The databases of several directories.
pub open spec fn found_databases(dirs: Seq<CindyDir>) -> FoundDatabases
    decreases dirs.len(),
{
    if dirs.len() == 0 {
        FoundDatabases { names: Seq::empty(), paths: Seq::empty() }
    } else {
        with_names(
            found_databases(dirs.drop_last()),
            dirs.last().path@,
            paths::in_order(database_names(dirs.last().entries@)),
        )
    }
}

/// The paths of the databases of several directories. Where two directories
/// hold a database of one name, the first has the say.
pub fn discover_cindy_databases(dirs: &Vec<CindyDir>) -> (r: Vec<String>)
    ensures
        paths::texts(r@) == found_databases(dirs@).paths,
{
    let mut seen: Vec<String> = Vec::new();
    let mut databases: Vec<String> = Vec::new();
    let mut d: usize = 0;
    assert(paths::texts(seen@) =~= found_databases(dirs@.take(0)).names);
    assert(paths::texts(databases@) =~= found_databases(dirs@.take(0)).paths);
    while d < dirs.len()
        invariant
            d <= dirs@.len(),
            paths::texts(seen@) == found_databases(dirs@.take(d as int)).names,
            paths::texts(databases@) == found_databases(dirs@.take(d as int)).paths,
        decreases dirs@.len() - d,
    {
        let ghost before = found_databases(dirs@.take(d as int));
        assert(dirs@.take(d + 1).drop_last() =~= dirs@.take(d as int));
        let dir = dirs[d].path.as_str();
        let names = collect_cindy_databases(&dirs[d].entries);
        let ghost all = paths::texts(names@);
        let mut i: usize = 0;
        assert(all.take(0) =~= Seq::<Seq<char>>::empty());
        while i < names.len()
            invariant
                i <= names@.len(),
                all == paths::texts(names@),
                paths::texts(seen@) == with_names(before, dir@, all.take(i as int)).names,
                paths::texts(databases@) == with_names(before, dir@, all.take(i as int)).paths,
            decreases names@.len() - i,
        {
            let ghost seen_before = paths::texts(seen@);
            let ghost paths_before = paths::texts(databases@);
            let name = names[i].as_str();
            assert(all.take(i + 1).drop_last() =~= all.take(i as int));
            assert(all[i as int] == name@);
            if !paths::holds_text(&seen, name) {
                databases.push(paths::join_path(dir, name));
                seen.push(name.to_owned());
                assert(paths::texts(seen@) =~= seen_before.push(name@));
                assert(paths::texts(databases@) =~= paths_before.push(
                    paths::inside(dir@, name@),
                ));
            }
            i += 1;
        }
        assert(all.take(all.len() as int) =~= all);
        d += 1;
    }
    assert(dirs@.take(dirs@.len() as int) =~= dirs@);
    databases
}

/// However many directories hold a database of one name, it is found once.
pub proof fn law_account_is_found_once(dirs: Seq<CindyDir>)
    ensures
        found_databases(dirs).names.no_duplicates(),
        found_databases(dirs).names.len() == found_databases(dirs).paths.len(),
    decreases dirs.len(),
{
    if dirs.len() > 0 {
        law_account_is_found_once(dirs.drop_last());
        lemma_with_names(
            found_databases(dirs.drop_last()),
            dirs.last().path@,
            paths::in_order(database_names(dirs.last().entries@)),
        );
    }
}

proof fn lemma_with_names(found: FoundDatabases, dir: Seq<char>, names: Seq<Seq<char>>)
    requires
        found.names.no_duplicates(),
        found.names.len() == found.paths.len(),
    ensures
        with_names(found, dir, names).names.no_duplicates(),
        with_names(found, dir, names).names.len() == with_names(found, dir, names).paths.len(),
    decreases names.len(),
{
    if names.len() > 0 {
        lemma_with_names(found, dir, names.drop_last());
        let rest = with_names(found, dir, names.drop_last()).names;
        let all = with_names(found, dir, names).names;
        assert forall|i: int, j: int|
            0 <= i < all.len() && 0 <= j < all.len() && i != j implies all[i] != all[j] by {
            if all.len() > rest.len() {
                if i < rest.len() && j < rest.len() {
                    assert(rest[i] != rest[j]);
                } else if i < rest.len() {
                    assert(rest.contains(rest[i]));
                } else {
                    assert(rest.contains(rest[j]));
                }
            }
        }
    }
}

/// The directories that Cindy may keep its databases in: the one that was
/// set, or else two below the user's data.
pub open spec fn data_dirs(set: Option<Seq<char>>, base: Option<Seq<char>>) -> Seq<Seq<char>> {
    match (set, base) {
        (Some(path), _) if path.len() > 0 => seq![path],
        (_, Some(dir)) => seq![
            paths::inside(dir, "CindyGlobal"@),
            paths::inside(dir, "Cindy"@),
        ],
        _ => Seq::empty(),
    }
}

/// The directories that Cindy may keep its databases in.
pub fn cindy_user_data_dirs(set: Option<&str>, base: Option<&str>) -> (r: Vec<String>)
    ensures
        paths::texts(r@) == data_dirs(crate::json::opt_str(set), crate::json::opt_str(base)),
{
    let mut dirs: Vec<String> = Vec::new();
    if let Some(path) = set {
        if !path.is_empty() {
            dirs.push(path.to_owned());
            assert(paths::texts(dirs@) =~= seq![path@]);
            return dirs;
        }
    }
    if let Some(dir) = base {
        dirs.push(paths::join_path(dir, "CindyGlobal"));
        dirs.push(paths::join_path(dir, "Cindy"));
        assert(paths::texts(dirs@) =~= seq![
            paths::inside(dir@, "CindyGlobal"@),
            paths::inside(dir@, "Cindy"@),
        ]);
        return dirs;
    }
    assert(paths::texts(dirs@) =~= Seq::<Seq<char>>::empty());
    dirs
}

/// A message is a turn where, and only where, it is completed and no copy from
/// the session that its own was forked from, and its usage is of no more than
/// one model and counts some tokens; a copy is one that is older than its
/// session.
pub proof fn law_which_messages_are_turns(
    account: Seq<char>,
    row: CindyTurnRow,
    meta: CindyAgentMeta,
    moment: Option<(Seq<char>, i64)>,
)
    ensures
        turn_of(account, row, meta, moment) is Some <==> {
            &&& !(row.parent_session_id is Some && row.created_at_ms < row.session_created_at)
            &&& meta.turn_completed == Some(true)
            &&& moment is Some
            &&& meta.turn_usage_details matches Some(details) && {
                &&& details.models@.len() <= 1
                &&& {
                    ||| details.input_tokens matches Some(n) && n > 0
                    ||| details.output_tokens matches Some(n) && n > 0
                    ||| details.cache_read_tokens matches Some(n) && n > 0
                    ||| details.cache_create_tokens matches Some(n) && n > 0
                }
            }
        },
{
}

/// A turn is what its message says: its day and second, its tokens, the session
/// that the agent itself keeps, and how it was paid for. Its agent and its model
/// are its own where they are named, and those of its session otherwise.
pub proof fn law_turn_is_what_the_message_says(
    account: Seq<char>,
    row: CindyTurnRow,
    meta: CindyAgentMeta,
    details: CindyTurnUsageDetails,
    moment: (Seq<char>, i64),
)
    requires
        meta.turn_usage_details == Some(details),
    ensures
        turn_of(account, row, meta, Some(moment)) matches Some(turn) ==> {
            &&& turn.day == moment.0
            &&& turn.created_at == moment.1
            &&& usage::held_count(turn.input_tokens, details.input_tokens)
            &&& usage::held_count(turn.output_tokens, details.output_tokens)
            &&& usage::held_count(turn.cache_read_tokens, details.cache_read_tokens)
            &&& usage::held_count(turn.cache_create_tokens, details.cache_create_tokens)
            &&& row.sdk_session_id matches Some(id) ==> turn.sdk_session_id == Some(id@)
            &&& row.sdk_session_id is None ==> turn.sdk_session_id is None
            &&& turn.billing_hint == billing_hint(meta)
            &&& turn.session_id == "cindy:"@ + hash::short_hash(seq![account]) + ":"@
                + row.session_id@
            &&& turn.request_id == "cindy:turn:"@ + hash::short_hash(
                seq![account, "turn"@, row.message_id@],
            )
            &&& (row.message_agent matches Some(agent) && !text::blank(agent@)) ==> turn.agent_kind
                == row.message_agent->0@
            &&& !(row.message_agent matches Some(agent) && !text::blank(agent@))
                ==> turn.agent_kind == row.session_agent@
            &&& (details.model matches Some(model) && !text::blank(model@))
                ==> turn.canonical_model == cindy::canonical_model(details.model->0@)
            &&& !(details.model matches Some(model) && !text::blank(model@))
                ==> turn.canonical_model == cindy::canonical_model(row.session_model@)
            &&& details.duration_ms matches Some(ms) ==> (ms <= i64::MAX ==> turn.duration_ms == ms)
            &&& details.duration_ms is None ==> (details.turn_duration_ms matches Some(ms) ==> (ms
                <= i64::MAX ==> turn.duration_ms == ms))
            &&& details.duration_ms is None && details.turn_duration_ms is None
                ==> turn.duration_ms == 0
        },
{
}

/// A turn was paid for by a subscription where its cost is an estimate, and as
/// an API where its cost is exact; where neither is said, a cost in dollars
/// speaks of a subscription, and without one nothing does.
pub proof fn law_how_a_turn_was_paid_for(meta: CindyAgentMeta)
    ensures
        ({
            let known = meta.turn_cost_usd matches Some(bits) && (bits < 0x7ff0_0000_0000_0000
                || bits == 0x8000_0000_0000_0000);
            let estimate = meta.turn_cost matches Some(cost) && (cost.approximate == Some(true) || (
            cost.kind matches Some(kind) && text::ascii_lowered(kind@) == text::ascii_lowered(
                "value-estimate"@,
            )));
            let exact = meta.turn_cost matches Some(cost) && cost.approximate == Some(false);
            &&& estimate ==> billing_hint(meta) == Some(CindyBillingKind::Subscription)
            &&& !estimate && exact ==> billing_hint(meta) == Some(CindyBillingKind::Api)
            &&& !estimate && !exact && known ==> billing_hint(meta) == Some(
                CindyBillingKind::Subscription,
            )
            &&& !estimate && !exact && !known ==> billing_hint(meta) is None
        }),
{
}

/// The account of a database goes by the name of its file.
pub proof fn law_account_goes_by_its_file(path: Seq<char>)
    ensures
        paths::name_of(path) matches Some(name) ==> account_of(path) == name,
        paths::name_of(path) is None ==> account_of(path) == hash::short_hash(seq![path]),
{
}

/// The daily totals are asked for with all their costs where the table has the
/// columns, and with none where it is older; days come in order, and the tokens
/// in the order in which they are read.
pub proof fn law_question_for_daily_totals(columns: Seq<Seq<char>>)
    ensures
        columns.contains("cost_usd"@) && columns.contains("cost_amount"@) && columns.contains(
            "cost_currency"@,
        ) && columns.contains("cost_is_approximate"@) ==> daily_query(columns)
            == "SELECT day, agent_kind, model, "@ + "cost_usd"@ + ", "@ + "cost_amount"@ + ", "@
            + "COALESCE(cost_currency, 'USD')"@ + ", "@ + "cost_is_approximate"@
            + ", input_tokens, output_tokens, cache_read_tokens, cache_create_tokens FROM daily_model_usage ORDER BY day, agent_kind, model, "@
            + "COALESCE(cost_currency, 'USD')"@,
        !columns.contains("cost_usd"@) && !columns.contains("cost_amount"@) && !columns.contains(
            "cost_currency"@,
        ) && !columns.contains("cost_is_approximate"@) ==> daily_query(columns)
            == "SELECT day, agent_kind, model, "@ + "0"@ + ", "@ + "0"@ + ", "@ + "'USD'"@ + ", "@
            + "0"@
            + ", input_tokens, output_tokens, cache_read_tokens, cache_create_tokens FROM daily_model_usage ORDER BY day, agent_kind, model, "@
            + "'USD'"@,
        daily_columns(columns) <==> columns.contains("day"@) && columns.contains("agent_kind"@)
            && columns.contains("model"@) && columns.contains("input_tokens"@) && columns.contains(
            "output_tokens"@,
        ) && columns.contains("cache_read_tokens"@) && columns.contains("cache_create_tokens"@),
{
}

/// The messages of agents are asked for with what their sessions say, as far as
/// the tables have the columns.
pub proof fn law_question_for_turns(messages: Seq<Seq<char>>, sessions: Seq<Seq<char>>)
    ensures
        messages.contains("agent_kind"@) && sessions.contains("agent_kind"@) && sessions.contains(
            "model"@,
        ) && sessions.contains("sdk_session_id"@) && sessions.contains("parent_session_id"@)
            && sessions.contains("created_at"@) ==> turn_query(messages, sessions)
            == "SELECT m.id, m.session_id, m.created_at, m.agent_meta, "@ + "m.agent_kind"@ + ", "@
            + "COALESCE(s.agent_kind, 'unknown')"@ + ", "@ + "COALESCE(s.model, 'unknown')"@ + ", "@
            + "s.sdk_session_id"@ + ", "@ + "s.parent_session_id"@ + ", "@ + "s.created_at"@
            + " FROM messages m JOIN sessions s ON s.id = m.session_id WHERE m.role = 'assistant' AND m.agent_meta IS NOT NULL AND m.created_at >= ?1 ORDER BY m.created_at, m.id"@,
        !messages.contains("agent_kind"@) && !sessions.contains("agent_kind"@)
            && !sessions.contains("model"@) && !sessions.contains("sdk_session_id"@)
            && !sessions.contains("parent_session_id"@) && !sessions.contains("created_at"@)
            ==> turn_query(messages, sessions)
            == "SELECT m.id, m.session_id, m.created_at, m.agent_meta, "@ + "NULL"@ + ", "@
            + "'unknown'"@ + ", "@ + "'unknown'"@ + ", "@ + "NULL"@ + ", "@ + "NULL"@ + ", "@ + "0"@
            + " FROM messages m JOIN sessions s ON s.id = m.session_id WHERE m.role = 'assistant' AND m.agent_meta IS NOT NULL AND m.created_at >= ?1 ORDER BY m.created_at, m.id"@,
        turn_columns(messages, sessions) <==> messages.contains("id"@) && messages.contains(
            "session_id"@,
        ) && messages.contains("role"@) && messages.contains("created_at"@) && messages.contains(
            "agent_meta"@,
        ) && sessions.contains("id"@),
{
}

/// A file is the database of an account where its name is `cindy-`, the account
/// and `.db`; a directory of that name is none.
pub proof fn law_names_of_databases(entry: DirEntry, account: Seq<char>)
    ensures
        entry.is_file && entry.name@ == "cindy-"@ + account + ".db"@ ==> is_database(entry),
        !entry.is_file ==> !is_database(entry),
        is_database(entry) ==> text::begins(entry.name@, "cindy-"@) && text::finishes(
            entry.name@,
            ".db"@,
        ),
{
    let rest = account + ".db"@;
    assert("cindy-"@ + account + ".db"@ =~= "cindy-"@ + rest);
    text::law_strip(rest, "cindy-"@);
    text::law_strip("cindy-"@ + account, ".db"@);
}

proof fn lemma_database_names(entries: Seq<DirEntry>, name: Seq<char>)
    ensures
        database_names(entries).contains(name) <==> exists|i: int|
            0 <= i < entries.len() && is_database(#[trigger] entries[i]) && entries[i].name@
                == name,
    decreases entries.len(),
{
    if entries.len() > 0 {
        let fewer = entries.drop_last();
        let rest = database_names(fewer);
        let all = database_names(entries);
        lemma_database_names(fewer, name);
        if all.contains(name) {
            let k = choose|k: int| 0 <= k < all.len() && all[k] == name;
            if k < rest.len() {
                assert(rest[k] == name);
                let i = choose|i: int|
                    0 <= i < fewer.len() && is_database(#[trigger] fewer[i]) && fewer[i].name@
                        == name;
                assert(entries[i] == fewer[i]);
            } else {
                assert(is_database(entries[entries.len() - 1]));
            }
        }
        if exists|i: int|
            0 <= i < entries.len() && is_database(#[trigger] entries[i]) && entries[i].name@
                == name {
            let i = choose|i: int|
                0 <= i < entries.len() && is_database(#[trigger] entries[i]) && entries[i].name@
                    == name;
            if i < fewer.len() {
                assert(fewer[i] == entries[i]);
                let k = choose|k: int| 0 <= k < rest.len() && rest[k] == name;
                assert(all[k] == name);
            } else {
                assert(all[all.len() - 1] == name);
            }
        }
    }
}

/// What was found stays where it was found, and a name that is new is found in
/// the directory.
proof fn lemma_names_are_found(
    found: FoundDatabases,
    dir: Seq<char>,
    names: Seq<Seq<char>>,
    name: Seq<char>,
    i: int,
)
    requires
        found.names.len() == found.paths.len(),
    ensures
        ({
            let after = with_names(found, dir, names);
            &&& after.names.len() == after.paths.len()
            &&& found.names.len() <= after.names.len()
            &&& 0 <= i < found.names.len() ==> after.names[i] == found.names[i] && after.paths[i]
                == found.paths[i]
            &&& found.names.len() <= i < after.names.len() ==> after.paths[i] == paths::inside(
                dir,
                after.names[i],
            ) && names.contains(after.names[i]) && !found.names.contains(after.names[i])
            &&& names.contains(name) ==> after.names.contains(name)
            &&& found.names.contains(name) ==> after.names.contains(name)
        }),
    decreases names.len(),
{
    if names.len() > 0 {
        let fewer = names.drop_last();
        let rest = with_names(found, dir, fewer);
        let after = with_names(found, dir, names);
        lemma_names_are_found(found, dir, fewer, name, i);
        if names.contains(name) {
            let k = choose|k: int| 0 <= k < names.len() && names[k] == name;
            if k < fewer.len() {
                assert(fewer[k] == name);
            } else if !rest.names.contains(name) {
                assert(after.names[after.names.len() - 1] == name);
            }
        }
        if rest.names.contains(name) {
            let k = choose|k: int| 0 <= k < rest.names.len() && rest.names[k] == name;
            assert(after.names[k] == name);
        }
        if found.names.len() <= i < rest.names.len() {
            let k = choose|k: int| 0 <= k < fewer.len() && fewer[k] == rest.names[i];
            assert(names[k] == rest.names[i]);
        } else if i == rest.names.len() && i < after.names.len() {
            assert(names[names.len() - 1] == after.names[i]);
            if found.names.contains(after.names[i]) {
                let k = choose|k: int|
                    0 <= k < found.names.len() && found.names[k] == after.names[i];
                lemma_names_are_found(found, dir, fewer, name, k);
                assert(rest.names[k] == after.names[i]);
            }
        }
    } else if found.names.contains(name) {
        let k = choose|k: int| 0 <= k < found.names.len() && found.names[k] == name;
    }
}

/// Every database of every directory is found, and where two directories have
/// one of the same name, the first directory's is taken: a database that was
/// found keeps its path, however many directories follow.
pub proof fn law_every_database_is_found(dirs: Seq<CindyDir>, d: int, e: int)
    requires
        0 <= d < dirs.len(),
        0 <= e < dirs[d].entries@.len(),
        is_database(dirs[d].entries@[e]),
    ensures
        ({
            let found = found_databases(dirs);
            let name = dirs[d].entries@[e].name@;
            let before = found_databases(dirs.take(d));
            &&& found.names.contains(name)
            &&& !before.names.contains(name) ==> found.paths.contains(
                paths::inside(dirs[d].path@, name),
            )
        }),
    decreases dirs.len(),
{
    let fewer = dirs.drop_last();
    let name = dirs[d].entries@[e].name@;
    let last = dirs.last();
    let listed = database_names(last.entries@);
    let names = paths::in_order(listed);
    let rest = found_databases(fewer);
    let found = found_databases(dirs);
    law_account_is_found_once(fewer);
    if d < fewer.len() {
        assert(fewer[d] == dirs[d]);
        assert(fewer.take(d) =~= dirs.take(d));
        law_every_database_is_found(fewer, d, e);
        let k = choose|k: int| 0 <= k < rest.names.len() && rest.names[k] == name;
        lemma_names_are_found(rest, last.path@, names, name, k);
        if !found_databases(dirs.take(d)).names.contains(name) {
            let path = paths::inside(dirs[d].path@, name);
            let j = choose|j: int| 0 <= j < rest.paths.len() && rest.paths[j] == path;
            lemma_names_are_found(rest, last.path@, names, name, j);
            assert(found.paths[j] == path);
        }
    } else {
        lemma_database_names(last.entries@, name);
        assert(last.entries@[e].name@ == name);
        paths::law_in_order(listed);
        lemma_same_members(listed, names, name);
        lemma_names_are_found(rest, last.path@, names, name, 0);
        let k = choose|k: int| 0 <= k < found.names.len() && found.names[k] == name;
        lemma_names_are_found(rest, last.path@, names, name, k);
        assert(dirs.take(d) =~= fewer);
        if !rest.names.contains(name) {
            if k < rest.names.len() {
                assert(rest.names[k] == name);
            }
            assert(found.paths[k] == paths::inside(last.path@, name));
        }
    }
}

proof fn lemma_same_members(a: Seq<Seq<char>>, b: Seq<Seq<char>>, item: Seq<char>)
    requires
        a.to_multiset() == b.to_multiset(),
        a.contains(item),
    ensures
        b.contains(item),
{
    broadcast use vstd::seq_lib::group_to_multiset_ensures;

    assert(a.to_multiset().count(item) > 0);
    assert(b.to_multiset().count(item) > 0);
}

/// Cindy's databases are looked for in the directory that was set, and else in
/// its global directory first and its own second.
pub proof fn law_directories_of_cindy(set: Seq<char>, base: Seq<char>)
    ensures
        set.len() > 0 ==> data_dirs(Some(set), Some(base)) == seq![set],
        set.len() > 0 ==> data_dirs(Some(set), None) == seq![set],
        set.len() == 0 ==> data_dirs(Some(set), Some(base)) == data_dirs(None, Some(base)),
        data_dirs(None, Some(base)) == seq![
            paths::inside(base, "CindyGlobal"@),
            paths::inside(base, "Cindy"@),
        ],
        data_dirs(None, None).len() == 0,
{
}

} // verus!
