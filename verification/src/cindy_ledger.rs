//! Cindy's daily totals and turns, gathered under the keys that they share.

use vstd::prelude::*;
use crate::cindy;
use crate::cindy::{CindyCost, CindyDailyUsage, CindyTokenBuckets, CindyTurnUsage, Tokens};
use crate::cindy_assign;
use crate::cindy_assign::{CindySourceModel, SourceTotal};
use crate::clock;
use crate::error::{AppError, Fault};
use crate::text;
use crate::usage;

verus! {

/// What one Cindy database held.
#[derive(Debug)]
pub struct CindyUsageSnapshot {
    pub account_id: String,
    pub daily: Vec<CindyDailyUsage>,
    pub turns: Vec<CindyTurnUsage>,
}

/// What turns and daily totals are matched by.
#[derive(Debug)]
pub struct CindyUsageKey {
    pub account_id: String,
    pub day: String,
    pub agent_kind: String,
    pub canonical_model: String,
}

/// What turns and daily totals are matched by.
pub struct UsageKey {
    pub account: Seq<char>,
    pub day: Seq<char>,
    pub agent: Seq<char>,
    pub model: Seq<char>,
}

impl View for CindyUsageKey {
    type V = UsageKey;

    open spec fn view(&self) -> UsageKey {
        UsageKey {
            account: self.account_id@,
            day: self.day@,
            agent: self.agent_kind@,
            model: self.canonical_model@,
        }
    }
}

impl CindyUsageKey {
    pub fn same(&self, other: &CindyUsageKey) -> (r: bool)
        ensures
            r == (self@ == other@),
    {
        text::same_text(self.account_id.as_str(), other.account_id.as_str()) && text::same_text(
            self.day.as_str(),
            other.day.as_str(),
        ) && text::same_text(self.agent_kind.as_str(), other.agent_kind.as_str())
            && text::same_text(self.canonical_model.as_str(), other.canonical_model.as_str())
    }

    pub fn copy(&self) -> (r: CindyUsageKey)
        ensures
            r@ == self@,
    {
        CindyUsageKey {
            account_id: self.account_id.as_str().to_owned(),
            day: self.day.as_str().to_owned(),
            agent_kind: self.agent_kind.as_str().to_owned(),
            canonical_model: self.canonical_model.as_str().to_owned(),
        }
    }
}

/// The daily totals under one key.
#[derive(Debug)]
pub struct CindyDailyAggregate {
    pub key: CindyUsageKey,
    pub source_models: Vec<CindySourceModel>,
}

/// The daily totals under one key.
pub struct DailyGroup {
    pub key: UsageKey,
    pub models: Seq<SourceTotal>,
}

impl View for CindyDailyAggregate {
    type V = DailyGroup;

    open spec fn view(&self) -> DailyGroup {
        DailyGroup { key: self.key@, models: cindy_assign::totals(self.source_models@) }
    }
}

/// What daily totals say.
pub open spec fn groups_of(daily: Seq<CindyDailyAggregate>) -> Seq<DailyGroup> {
    daily.map_values(|d: CindyDailyAggregate| d@)
}

/// The name that a daily total goes by.
pub open spec fn source_model(usage: CindyDailyUsage) -> Seq<char> {
    usage::known_name(usage.model@)
}

/// The key of a daily total, under the one name of its agent's kind.
pub open spec fn daily_key(account: Seq<char>, usage: CindyDailyUsage, app: Seq<char>) -> UsageKey {
    UsageKey {
        account,
        day: usage.day@,
        agent: cindy::canonical_agent(usage.agent_kind@, app),
        model: cindy::canonical_model(source_model(usage)),
    }
}

/// The key of a turn, under the one name of its agent's kind.
pub open spec fn turn_key(account: Seq<char>, usage: CindyTurnUsage, app: Seq<char>) -> UsageKey {
    UsageKey {
        account,
        day: usage.day@,
        agent: cindy::canonical_agent(usage.agent_kind@, app),
        model: usage.canonical_model@,
    }
}

/// The first position from `from` on of the model of that name.
pub open spec fn model_from(models: Seq<SourceTotal>, model: Seq<char>, from: int) -> Option<int>
    decreases models.len() - from,
{
    if from < 0 || from >= models.len() {
        None
    } else if models[from].model == model {
        Some(from)
    } else {
        model_from(models, model, from + 1)
    }
}

/// The first position from `from` on of the totals under that key.
pub open spec fn daily_from(groups: Seq<DailyGroup>, key: UsageKey, from: int) -> Option<int>
    decreases groups.len() - from,
{
    if from < 0 || from >= groups.len() {
        None
    } else if groups[from].key == key {
        Some(from)
    } else {
        daily_from(groups, key, from + 1)
    }
}

/// The totals of models with one daily total more.
pub open spec fn with_total(
    models: Seq<SourceTotal>,
    model: Seq<char>,
    tokens: Tokens,
    cost: CindyCost,
) -> Seq<SourceTotal> {
    match model_from(models, model, 0) {
        Some(m) => models.update(
            m,
            SourceTotal {
                model,
                tokens: models[m].tokens.plus(tokens).held(),
                costs: models[m].costs.push(cost),
            },
        ),
        None => models.push(SourceTotal { model, tokens, costs: seq![cost] }),
    }
}

/// Daily totals with one more.
pub open spec fn with_daily(
    groups: Seq<DailyGroup>,
    account: Seq<char>,
    usage: CindyDailyUsage,
    app: Seq<char>,
) -> Seq<DailyGroup> {
    let key = daily_key(account, usage, app);
    let (model, tokens, cost) = (
        source_model(usage),
        cindy::daily_tokens(usage),
        cindy::daily_cost(usage),
    );
    match daily_from(groups, key, 0) {
        Some(g) => groups.update(
            g,
            DailyGroup { key, models: with_total(groups[g].models, model, tokens, cost) },
        ),
        None => groups.push(
            DailyGroup { key, models: with_total(Seq::empty(), model, tokens, cost) },
        ),
    }
}

/// Daily totals with those of one account more.
pub open spec fn with_days(
    groups: Seq<DailyGroup>,
    account: Seq<char>,
    rows: Seq<CindyDailyUsage>,
    app: Seq<char>,
) -> Seq<DailyGroup>
    decreases rows.len(),
{
    if rows.len() == 0 {
        groups
    } else {
        with_daily(with_days(groups, account, rows.drop_last(), app), account, rows.last(), app)
    }
}

/// The daily totals of all accounts, added up per key and model.
pub open spec fn daily_table(sources: Seq<CindyUsageSnapshot>, app: Seq<char>) -> Seq<DailyGroup>
    decreases sources.len(),
{
    if sources.len() == 0 {
        Seq::empty()
    } else {
        with_days(
            daily_table(sources.drop_last(), app),
            sources.last().account_id@,
            sources.last().daily@,
            app,
        )
    }
}

/// What is wrong with the date of a daily total.
pub open spec fn day_fault(usage: CindyDailyUsage) -> Option<Fault> {
    match clock::date_complaint(usage.day@, "%Y-%m-%d"@) {
        Some(complaint) => Some(
            Fault::Config("Cindy 用量日期格式无效 "@ + usage.day@ + ": "@ + complaint),
        ),
        None => None,
    }
}

/// The first thing that is wrong with the dates of an account.
pub open spec fn rows_fault(rows: Seq<CindyDailyUsage>) -> Option<Fault>
    decreases rows.len(),
{
    if rows.len() == 0 {
        None
    } else {
        match rows_fault(rows.drop_last()) {
            Some(fault) => Some(fault),
            None => day_fault(rows.last()),
        }
    }
}

/// The first thing that is wrong with the dates of all accounts.
pub open spec fn sources_fault(sources: Seq<CindyUsageSnapshot>) -> Option<Fault>
    decreases sources.len(),
{
    if sources.len() == 0 {
        None
    } else {
        match sources_fault(sources.drop_last()) {
            Some(fault) => Some(fault),
            None => rows_fault(sources.last().daily@),
        }
    }
}

/// The position of the model of that name.
fn find_model(models: &Vec<CindySourceModel>, model: &str) -> (r: Option<usize>)
    ensures
        cindy_assign::opt_position(r) == model_from(cindy_assign::totals(models@), model@, 0),
        r matches Some(m) ==> m < models@.len(),
{
    let ghost all = cindy_assign::totals(models@);
    let mut i: usize = 0;
    while i < models.len()
        invariant
            i <= models@.len(),
            all == cindy_assign::totals(models@),
            model_from(all, model@, i as int) == model_from(all, model@, 0),
        decreases models@.len() - i,
    {
        assert(all[i as int] == models@[i as int]@);
        if text::same_text(models[i].model.as_str(), model) {
            return Some(i);
        }
        i += 1;
    }
    None
}

/// The position of the totals under that key.
pub(crate) fn find_daily(
    daily: &Vec<CindyDailyAggregate>,
    key: &CindyUsageKey,
) -> (r: Option<usize>)
    ensures
        cindy_assign::opt_position(r) == daily_from(groups_of(daily@), key@, 0),
        r matches Some(g) ==> g < daily@.len(),
{
    let ghost all = groups_of(daily@);
    let mut i: usize = 0;
    while i < daily.len()
        invariant
            i <= daily@.len(),
            all == groups_of(daily@),
            daily_from(all, key@, i as int) == daily_from(all, key@, 0),
        decreases daily@.len() - i,
    {
        assert(all[i as int] == daily@[i as int]@);
        if daily[i].key.same(key) {
            return Some(i);
        }
        i += 1;
    }
    None
}

/// Adds a daily total to the totals of models.
fn add_total(
    models: &mut Vec<CindySourceModel>,
    model: String,
    tokens: CindyTokenBuckets,
    cost: CindyCost,
)
    ensures
        cindy_assign::totals(final(models)@) == with_total(
            cindy_assign::totals(old(models)@),
            model@,
            tokens@,
            cost,
        ),
{
    let ghost before = cindy_assign::totals(models@);
    match find_model(models, model.as_str()) {
        Some(m) => {
            models[m].tokens.add_assign(tokens);
            models[m].costs.push(cost);
            proof {
                let after = cindy_assign::totals(models@);
                assert(after =~= with_total(before, model@, tokens@, cost)) by {
                    lemma_model_from(before, model@, 0);
                }
            }
        },
        None => {
            let mut costs: Vec<CindyCost> = Vec::new();
            costs.push(cost);
            assert(costs@ =~= seq![cost]);
            models.push(CindySourceModel { model, tokens, costs });
            assert(cindy_assign::totals(models@) =~= with_total(before, model@, tokens@, cost));
        },
    }
}

pub proof fn lemma_model_from(models: Seq<SourceTotal>, model: Seq<char>, from: int)
    requires
        0 <= from,
    ensures
        match model_from(models, model, from) {
            Some(m) => from <= m < models.len() && models[m].model == model && forall|k: int|
                from <= k < m ==> (#[trigger] models[k]).model != model,
            None => forall|k: int| from <= k < models.len() ==> (#[trigger] models[k]).model != model,
        },
    decreases models.len() - from,
{
    if from < models.len() && models[from].model != model {
        lemma_model_from(models, model, from + 1);
    }
}

pub proof fn lemma_daily_from(groups: Seq<DailyGroup>, key: UsageKey, from: int)
    requires
        0 <= from,
    ensures
        match daily_from(groups, key, from) {
            Some(g) => from <= g < groups.len() && groups[g].key == key && forall|k: int|
                from <= k < g ==> (#[trigger] groups[k]).key != key,
            None => forall|k: int| from <= k < groups.len() ==> (#[trigger] groups[k]).key != key,
        },
    decreases groups.len() - from,
{
    if from < groups.len() && groups[from].key != key {
        lemma_daily_from(groups, key, from + 1);
    }
}

/// Adds a daily total of an account.
fn add_daily(
    daily: &mut Vec<CindyDailyAggregate>,
    account_id: &str,
    usage: &CindyDailyUsage,
    app: &str,
)
    ensures
        groups_of(final(daily)@) == with_daily(groups_of(old(daily)@), account_id@, *usage, app@),
{
    let ghost before = groups_of(daily@);
    let model = usage::name_or_unknown(usage.model.as_str());
    let key = CindyUsageKey {
        account_id: account_id.to_owned(),
        day: usage.day.as_str().to_owned(),
        agent_kind: cindy::canonical_cindy_agent_kind(usage.agent_kind.as_str(), app),
        canonical_model: cindy::canonical_cindy_model(model.as_str()),
    };
    let tokens = CindyTokenBuckets::from_daily(usage);
    let cost = cindy::cindy_cost_usd(usage);
    assert(key@ == daily_key(account_id@, *usage, app@));
    match find_daily(daily, &key) {
        Some(g) => {
            add_total(&mut daily[g].source_models, model, tokens, cost);
            proof {
                lemma_daily_from(before, key@, 0);
                assert(groups_of(daily@) =~= with_daily(before, account_id@, *usage, app@));
            }
        },
        None => {
            let mut models: Vec<CindySourceModel> = Vec::new();
            assert(cindy_assign::totals(models@) =~= Seq::<SourceTotal>::empty());
            add_total(&mut models, model, tokens, cost);
            daily.push(CindyDailyAggregate { key, source_models: models });
            assert(groups_of(daily@) =~= with_daily(before, account_id@, *usage, app@));
        },
    }
}

/// The daily totals of all accounts, added up per key and model.
pub fn collect_cindy_days(sources: &Vec<CindyUsageSnapshot>, app: &str) -> (r: Result<
    Vec<CindyDailyAggregate>,
    AppError,
>)
    ensures
        match r {
            Ok(daily) => sources_fault(sources@) is None && groups_of(daily@) == daily_table(
                sources@,
                app@,
            ),
            Err(error) => sources_fault(sources@) == Some(error@),
        },
{
    let mut daily: Vec<CindyDailyAggregate> = Vec::new();
    let mut s: usize = 0;
    assert(groups_of(daily@) =~= Seq::<DailyGroup>::empty());
    while s < sources.len()
        invariant
            s <= sources@.len(),
            sources_fault(sources@.take(s as int)) is None,
            groups_of(daily@) == daily_table(sources@.take(s as int), app@),
        decreases sources@.len() - s,
    {
        let rows = &sources[s].daily;
        let account_id = sources[s].account_id.as_str();
        let ghost before = groups_of(daily@);
        assert(sources@.take(s + 1).drop_last() =~= sources@.take(s as int));
        assert(sources@.take(s + 1).last() == sources@[s as int]);
        let mut i: usize = 0;
        assert(rows@.take(0) =~= Seq::<CindyDailyUsage>::empty());
        while i < rows.len()
            invariant
                s < sources@.len(),
                i <= rows@.len(),
                rows@ == sources@[s as int].daily@,
                account_id@ == sources@[s as int].account_id@,
                sources@.take(s + 1).drop_last() == sources@.take(s as int),
                sources_fault(sources@.take(s as int)) is None,
                rows_fault(rows@.take(i as int)) is None,
                groups_of(daily@) == with_days(before, account_id@, rows@.take(i as int), app@),
            decreases rows@.len() - i,
        {
            proof {
                assert(rows@.take(i + 1).drop_last() =~= rows@.take(i as int));
            }
            if let Some(complaint) = clock::check_date(rows[i].day.as_str(), "%Y-%m-%d") {
                let head = text::joined3(
                    "Cindy 用量日期格式无效 ",
                    rows[i].day.as_str(),
                    ": ",
                );
                let error = AppError::Config(text::joined(head.as_str(), complaint.as_str()));
                proof {
                    lemma_rows_fault(rows@, i as int);
                    lemma_sources_fault(sources@, s as int);
                }
                return Err(error);
            }
            add_daily(&mut daily, account_id, &rows[i], app);
            i += 1;
        }
        assert(rows@.take(rows@.len() as int) =~= rows@);
        s += 1;
    }
    assert(sources@.take(sources@.len() as int) =~= sources@);
    Ok(daily)
}

/// Later rows do not hide what is wrong with an earlier one.
proof fn lemma_rows_fault(rows: Seq<CindyDailyUsage>, i: int)
    requires
        0 <= i < rows.len(),
        rows_fault(rows.take(i + 1)) is Some,
    ensures
        rows_fault(rows) == rows_fault(rows.take(i + 1)),
    decreases rows.len(),
{
    if i + 1 == rows.len() {
        assert(rows.take(i + 1) =~= rows);
    } else {
        let fewer = rows.drop_last();
        assert(fewer.take(i + 1) =~= rows.take(i + 1));
        lemma_rows_fault(fewer, i);
    }
}

/// Later accounts do not hide what is wrong with an earlier one.
proof fn lemma_sources_fault(sources: Seq<CindyUsageSnapshot>, s: int)
    requires
        0 <= s < sources.len(),
        sources_fault(sources.take(s)) is None,
        rows_fault(sources[s].daily@) is Some,
    ensures
        sources_fault(sources) == rows_fault(sources[s].daily@),
    decreases sources.len(),
{
    let fewer = sources.drop_last();
    if s + 1 == sources.len() {
        assert(sources.take(s) =~= fewer);
    } else {
        assert(fewer.take(s) =~= sources.take(s));
        lemma_sources_fault(fewer, s);
    }
}

/// The turns under one key.
#[derive(Debug)]
pub struct CindyTurnGroup {
    pub key: CindyUsageKey,
    pub turns: Vec<CindyTurnUsage>,
}

/// The turns under one key.
pub struct TurnGroup {
    pub key: UsageKey,
    pub turns: Seq<CindyTurnUsage>,
}

impl View for CindyTurnGroup {
    type V = TurnGroup;

    open spec fn view(&self) -> TurnGroup {
        TurnGroup { key: self.key@, turns: self.turns@ }
    }
}

/// What groups of turns say.
pub open spec fn turn_groups(groups: Seq<CindyTurnGroup>) -> Seq<TurnGroup> {
    groups.map_values(|g: CindyTurnGroup| g@)
}

/// The first position from `from` on of the turns under that key.
pub open spec fn group_from(groups: Seq<TurnGroup>, key: UsageKey, from: int) -> Option<int>
    decreases groups.len() - from,
{
    if from < 0 || from >= groups.len() {
        None
    } else if groups[from].key == key {
        Some(from)
    } else {
        group_from(groups, key, from + 1)
    }
}

/// Groups of turns with one turn more.
pub open spec fn with_turn(groups: Seq<TurnGroup>, key: UsageKey, turn: CindyTurnUsage) -> Seq<
    TurnGroup,
> {
    match group_from(groups, key, 0) {
        Some(g) => groups.update(g, TurnGroup { key, turns: groups[g].turns.push(turn) }),
        None => groups.push(TurnGroup { key, turns: seq![turn] }),
    }
}

/// Groups of turns with those of one account more.
pub open spec fn with_turns(
    groups: Seq<TurnGroup>,
    account: Seq<char>,
    turns: Seq<CindyTurnUsage>,
    app: Seq<char>,
) -> Seq<TurnGroup>
    decreases turns.len(),
{
    if turns.len() == 0 {
        groups
    } else {
        with_turn(
            with_turns(groups, account, turns.drop_last(), app),
            turn_key(account, turns.last(), app),
            turns.last(),
        )
    }
}

/// The turns of all accounts, together per key, in the order in which the
/// keys and the turns come.
pub open spec fn turn_table(sources: Seq<CindyUsageSnapshot>, app: Seq<char>) -> Seq<TurnGroup>
    decreases sources.len(),
{
    if sources.len() == 0 {
        Seq::empty()
    } else {
        with_turns(
            turn_table(sources.drop_last(), app),
            sources.last().account_id@,
            sources.last().turns@,
            app,
        )
    }
}

/// The position of the turns under that key.
fn find_group(groups: &Vec<CindyTurnGroup>, key: &CindyUsageKey) -> (r: Option<usize>)
    ensures
        cindy_assign::opt_position(r) == group_from(turn_groups(groups@), key@, 0),
        r matches Some(g) ==> g < groups@.len() && groups@[g as int].key@ == key@,
{
    let ghost all = turn_groups(groups@);
    let mut i: usize = 0;
    while i < groups.len()
        invariant
            i <= groups@.len(),
            all == turn_groups(groups@),
            group_from(all, key@, i as int) == group_from(all, key@, 0),
        decreases groups@.len() - i,
    {
        assert(all[i as int] == groups@[i as int]@);
        if groups[i].key.same(key) {
            return Some(i);
        }
        i += 1;
    }
    None
}

/// Adds a turn to the group of its key.
fn add_turn(groups: &mut Vec<CindyTurnGroup>, account_id: &str, turn: CindyTurnUsage, app: &str)
    ensures
        turn_groups(final(groups)@) == with_turn(
            turn_groups(old(groups)@),
            turn_key(account_id@, turn, app@),
            turn,
        ),
{
    let ghost before = turn_groups(groups@);
    let key = CindyUsageKey {
        account_id: account_id.to_owned(),
        day: turn.day.as_str().to_owned(),
        agent_kind: cindy::canonical_cindy_agent_kind(turn.agent_kind.as_str(), app),
        canonical_model: turn.canonical_model.as_str().to_owned(),
    };
    assert(key@ == turn_key(account_id@, turn, app@));
    match find_group(groups, &key) {
        Some(g) => {
            groups[g].turns.push(turn);
            assert(turn_groups(groups@) =~= with_turn(before, key@, turn));
        },
        None => {
            let mut turns: Vec<CindyTurnUsage> = Vec::new();
            turns.push(turn);
            assert(turns@ =~= seq![turn]);
            groups.push(CindyTurnGroup { key, turns });
            assert(turn_groups(groups@) =~= with_turn(before, key@, turn));
        },
    }
}

/// The turns of all accounts, together per key.
pub fn collect_cindy_turns(sources: Vec<CindyUsageSnapshot>, app: &str) -> (r: Vec<CindyTurnGroup>)
    ensures
        turn_groups(r@) == turn_table(sources@, app@),
{
    let ghost all = sources@;
    let mut groups: Vec<CindyTurnGroup> = Vec::new();
    assert(turn_groups(groups@) =~= Seq::<TurnGroup>::empty());
    for source in outer: sources.into_iter()
        invariant
            outer.seq() == all,
            turn_groups(groups@) == turn_table(all.take(outer.index() as int), app@),
    {
        let ghost s = outer.index() as int;
        let ghost before = turn_groups(groups@);
        let ghost turns = source.turns@;
        proof {
            assert(all.take(s + 1).drop_last() =~= all.take(s));
            assert(all.take(s + 1).last() == all[s]);
        }
        let account_id = source.account_id;
        assert(turns.take(0) =~= Seq::<CindyTurnUsage>::empty());
        for turn in inner: source.turns.into_iter()
            invariant
                inner.seq() == turns,
                turn_groups(groups@) == with_turns(
                    before,
                    account_id@,
                    turns.take(inner.index() as int),
                    app@,
                ),
        {
            let ghost i = inner.index() as int;
            assert(turns.take(i + 1).drop_last() =~= turns.take(i));
            add_turn(&mut groups, account_id.as_str(), turn, app);
        }
        assert(turns.take(turns.len() as int) =~= turns);
    }
    assert(all.take(all.len() as int) =~= all);
    groups
}

/// Rows and turns are gathered by account, day, agent and model: they meet where
/// all four are the same. The agent of the application `app` is one agent under
/// either of its names, and the variants of a model are one model.
pub proof fn law_what_rows_and_turns_meet_by(
    account: Seq<char>,
    row: CindyDailyUsage,
    turn: CindyTurnUsage,
    app: Seq<char>,
)
    ensures
        ({
            let a = daily_key(account, row, app);
            let b = turn_key(account, turn, app);
            &&& a.account == account && b.account == account
            &&& a.day == row.day@ && b.day == turn.day@
            &&& row.agent_kind@ == "cc"@ ==> a.agent == app + "-code"@
            &&& row.agent_kind@ != "cc"@ ==> a.agent == row.agent_kind@
            &&& turn.agent_kind@ == "cc"@ ==> b.agent == app + "-code"@
            &&& turn.agent_kind@ != "cc"@ ==> b.agent == turn.agent_kind@
            &&& b.model == turn.canonical_model@
            &&& !text::blank(row.model@) ==> a.model == cindy::canonical_model(row.model@)
                && source_model(row) == row.model@
            &&& text::blank(row.model@) ==> a.model == cindy::canonical_model("unknown"@)
                && source_model(row) == "unknown"@
        }),
{
}

/// A row of an account.
pub open spec fn row_at(sources: Seq<CindyUsageSnapshot>, s: int, r: int) -> CindyDailyUsage {
    sources[s].daily@[r]
}

/// A refresh fails where, and only where, a row of an account has a date that
/// is none, and the failure names the first such date and what is wrong with
/// it.
pub proof fn law_first_bad_date_fails_the_refresh(
    sources: Seq<CindyUsageSnapshot>,
    s: int,
    r: int,
)
    ensures
        (forall|i: int, k: int|
            0 <= i < sources.len() && 0 <= k < sources[i].daily@.len() ==> clock::date_complaint(
                (#[trigger] row_at(sources, i, k)).day@,
                "%Y-%m-%d"@,
            ) is None) ==> sources_fault(sources) is None,
        0 <= s < sources.len() && 0 <= r < sources[s].daily@.len() && (forall|i: int, k: int|
            0 <= i < sources.len() && 0 <= k < sources[i].daily@.len() && (i < s || (i == s && k
                < r)) ==> clock::date_complaint(
                (#[trigger] row_at(sources, i, k)).day@,
                "%Y-%m-%d"@,
            ) is None) ==> (clock::date_complaint(row_at(sources, s, r).day@, "%Y-%m-%d"@) matches Some(
            complaint,
        ) ==> sources_fault(sources) == Some(
            Fault::Config(
                "Cindy 用量日期格式无效 "@ + row_at(sources, s, r).day@ + ": "@ + complaint,
            ),
        )),
{
    if forall|i: int, k: int|
        0 <= i < sources.len() && 0 <= k < sources[i].daily@.len() ==> clock::date_complaint(
            (#[trigger] row_at(sources, i, k)).day@,
            "%Y-%m-%d"@,
        ) is None {
        lemma_sources_sound(sources, sources.len() as int);
        assert(sources.take(sources.len() as int) =~= sources);
    }
    if 0 <= s < sources.len() && 0 <= r < sources[s].daily@.len() && (forall|i: int, k: int|
        0 <= i < sources.len() && 0 <= k < sources[i].daily@.len() && (i < s || (i == s && k < r))
            ==> clock::date_complaint((#[trigger] row_at(sources, i, k)).day@, "%Y-%m-%d"@) is None) {
        let rows = sources[s].daily@;
        if clock::date_complaint(row_at(sources, s, r).day@, "%Y-%m-%d"@) is Some {
            lemma_sources_sound(sources, s);
            assert forall|k: int| 0 <= k < r implies day_fault(#[trigger] rows[k]) is None by {
                assert(row_at(sources, s, k) == rows[k]);
            }
            lemma_rows_sound(rows, r);
            assert(rows.take(r + 1).drop_last() =~= rows.take(r));
            assert(rows.take(r + 1).last() == rows[r]);
            lemma_rows_fault(rows, r);
            lemma_sources_fault(sources, s);
        }
    }
}

proof fn lemma_rows_sound(rows: Seq<CindyDailyUsage>, n: int)
    requires
        0 <= n <= rows.len(),
        forall|k: int| 0 <= k < n ==> day_fault(#[trigger] rows[k]) is None,
    ensures
        rows_fault(rows.take(n)) is None,
    decreases n,
{
    if n > 0 {
        lemma_rows_sound(rows, n - 1);
        assert(rows.take(n).drop_last() =~= rows.take(n - 1));
    }
}

proof fn lemma_sources_sound(sources: Seq<CindyUsageSnapshot>, n: int)
    requires
        0 <= n <= sources.len(),
        forall|i: int, k: int|
            0 <= i < n && 0 <= k < sources[i].daily@.len() ==> clock::date_complaint(
                (#[trigger] row_at(sources, i, k)).day@,
                "%Y-%m-%d"@,
            ) is None,
    ensures
        sources_fault(sources.take(n)) is None,
    decreases n,
{
    if n > 0 {
        lemma_sources_sound(sources, n - 1);
        assert(sources.take(n).drop_last() =~= sources.take(n - 1));
        let rows = sources[n - 1].daily@;
        assert forall|k: int| 0 <= k < rows.len() implies day_fault(#[trigger] rows[k]) is None by {
            assert(row_at(sources, n - 1, k) == rows[k]);
        }
        lemma_rows_sound(rows, rows.len() as int);
        assert(rows.take(rows.len() as int) =~= rows);
    }
}

} // verus!
