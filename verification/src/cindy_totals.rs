//! Cindy's daily totals are what its rows add up to, and a refresh keeps them.

use vstd::prelude::*;
use crate::cindy;
use crate::cindy::{CindyCost, CindyDailyUsage, Tokens};
use crate::cindy_assign;
use crate::cindy_assign::SourceTotal;
use crate::cindy_laws;
use crate::cindy_ledger;
use crate::cindy_ledger::{CindyUsageSnapshot, DailyGroup, UsageKey};
use crate::cindy_plan;
use crate::cindy_settle;
use crate::text;
use crate::usage::DesktopUsageInsertOutcome;

verus! {

/// A row that counts towards the total of a model under a key.
pub open spec fn counts_for(
    account: Seq<char>,
    row: CindyDailyUsage,
    key: UsageKey,
    model: Seq<char>,
    app: Seq<char>,
) -> bool {
    cindy_ledger::daily_key(account, row, app) == key && cindy_ledger::source_model(row) == model
}

/// Some row of an account counts towards a total.
pub open spec fn any_row(
    account: Seq<char>,
    rows: Seq<CindyDailyUsage>,
    key: UsageKey,
    model: Seq<char>,
    app: Seq<char>,
) -> bool
    decreases rows.len(),
{
    rows.len() > 0 && (counts_for(account, rows.last(), key, model, app) || any_row(
        account,
        rows.drop_last(),
        key,
        model,
        app,
    ))
}

/// Some row of all accounts counts towards a total.
pub open spec fn any_used(
    sources: Seq<CindyUsageSnapshot>,
    key: UsageKey,
    model: Seq<char>,
    app: Seq<char>,
) -> bool
    decreases sources.len(),
{
    sources.len() > 0 && (any_row(
        sources.last().account_id@,
        sources.last().daily@,
        key,
        model,
        app,
    ) || any_used(sources.drop_last(), key, model, app))
}

/// The tokens of the rows of an account that count towards a total.
pub open spec fn rows_sum(
    account: Seq<char>,
    rows: Seq<CindyDailyUsage>,
    key: UsageKey,
    model: Seq<char>,
    app: Seq<char>,
) -> Tokens
    decreases rows.len(),
{
    if rows.len() == 0 {
        Tokens::none()
    } else {
        let rest = rows_sum(account, rows.drop_last(), key, model, app);
        if counts_for(account, rows.last(), key, model, app) {
            rest.plus(cindy::daily_tokens(rows.last()))
        } else {
            rest
        }
    }
}

/// The tokens of all rows that count towards a total.
pub open spec fn used(
    sources: Seq<CindyUsageSnapshot>,
    key: UsageKey,
    model: Seq<char>,
    app: Seq<char>,
) -> Tokens
    decreases sources.len(),
{
    if sources.len() == 0 {
        Tokens::none()
    } else {
        used(sources.drop_last(), key, model, app).plus(
            rows_sum(sources.last().account_id@, sources.last().daily@, key, model, app),
        )
    }
}

/// The total of a model, if there is one.
pub open spec fn model_total(models: Seq<SourceTotal>, model: Seq<char>) -> Option<Tokens> {
    match cindy_ledger::model_from(models, model, 0) {
        Some(m) => Some(models[m].tokens),
        None => None,
    }
}

/// The total of a model under a key, if there is one.
pub open spec fn total_of(table: Seq<DailyGroup>, key: UsageKey, model: Seq<char>) -> Option<
    Tokens,
> {
    match cindy_ledger::daily_from(table, key, 0) {
        Some(g) => model_total(table[g].models, model),
        None => None,
    }
}

/// A total with more tokens.
pub open spec fn raised(total: Option<Tokens>, tokens: Tokens) -> Option<Tokens> {
    match total {
        Some(before) => Some(before.plus(tokens).held()),
        None => Some(tokens),
    }
}

proof fn lemma_model_total(
    models: Seq<SourceTotal>,
    model: Seq<char>,
    tokens: Tokens,
    cost: CindyCost,
    other: Seq<char>,
)
    ensures
        model_total(cindy_ledger::with_total(models, model, tokens, cost), other) == if other
            == model {
            raised(model_total(models, model), tokens)
        } else {
            model_total(models, other)
        },
{
    let more = cindy_ledger::with_total(models, model, tokens, cost);
    cindy_ledger::lemma_model_from(models, model, 0);
    cindy_ledger::lemma_model_from(models, other, 0);
    cindy_ledger::lemma_model_from(more, other, 0);
    match cindy_ledger::model_from(models, model, 0) {
        Some(m) => {
            assert forall|k: int| 0 <= k < models.len() implies (#[trigger] more[k]).model
                == models[k].model by {}
            match (
                cindy_ledger::model_from(models, other, 0),
                cindy_ledger::model_from(more, other, 0),
            ) {
                (Some(a), Some(b)) => {
                    assert(more[a].model == other && models[b].model == other);
                },
                (Some(a), None) => {
                    assert(more[a].model == other);
                },
                (None, Some(b)) => {
                    assert(models[b].model == other);
                },
                (None, None) => {},
            }
        },
        None => {
            assert forall|k: int| 0 <= k < models.len() implies #[trigger] more[k]
                == models[k] by {}
            assert(more[models.len() as int].model == model);
            match (
                cindy_ledger::model_from(models, other, 0),
                cindy_ledger::model_from(more, other, 0),
            ) {
                (Some(a), Some(b)) => {
                    assert(more[a] == models[a]);
                    if b < models.len() {
                        assert(more[b] == models[b]);
                    }
                },
                (Some(a), None) => {
                    assert(more[a] == models[a]);
                },
                (None, Some(b)) => {
                    if b < models.len() {
                        assert(more[b] == models[b]);
                    }
                },
                (None, None) => {},
            }
        },
    }
}

proof fn lemma_with_daily(
    table: Seq<DailyGroup>,
    account: Seq<char>,
    row: CindyDailyUsage,
    key: UsageKey,
    model: Seq<char>,
    app: Seq<char>,
)
    ensures
        total_of(cindy_ledger::with_daily(table, account, row, app), key, model) == if counts_for(
            account,
            row,
            key,
            model,
            app,
        ) {
            raised(total_of(table, key, model), cindy::daily_tokens(row))
        } else {
            total_of(table, key, model)
        },
{
    let more = cindy_ledger::with_daily(table, account, row, app);
    let own = cindy_ledger::daily_key(account, row, app);
    let (name, tokens, cost) = (
        cindy_ledger::source_model(row),
        cindy::daily_tokens(row),
        cindy::daily_cost(row),
    );
    cindy_ledger::lemma_daily_from(table, own, 0);
    cindy_ledger::lemma_daily_from(table, key, 0);
    cindy_ledger::lemma_daily_from(more, key, 0);
    match cindy_ledger::daily_from(table, own, 0) {
        Some(g) => {
            lemma_model_total(table[g].models, name, tokens, cost, model);
            assert forall|k: int| 0 <= k < table.len() implies (#[trigger] more[k]).key
                == table[k].key by {}
            match (
                cindy_ledger::daily_from(table, key, 0),
                cindy_ledger::daily_from(more, key, 0),
            ) {
                (Some(a), Some(b)) => {
                    assert(more[a].key == key && table[b].key == key);
                },
                (Some(a), None) => {
                    assert(more[a].key == key);
                },
                (None, Some(b)) => {
                    assert(table[b].key == key);
                },
                (None, None) => {},
            }
        },
        None => {
            let none = Seq::<SourceTotal>::empty();
            lemma_model_total(none, name, tokens, cost, model);
            assert(model_total(none, model) is None);
            assert forall|k: int| 0 <= k < table.len() implies #[trigger] more[k] == table[k] by {}
            assert(more[table.len() as int].key == own);
            match (
                cindy_ledger::daily_from(table, key, 0),
                cindy_ledger::daily_from(more, key, 0),
            ) {
                (Some(a), Some(b)) => {
                    assert(more[a] == table[a]);
                    if b < table.len() {
                        assert(more[b] == table[b]);
                    }
                },
                (Some(a), None) => {
                    assert(more[a] == table[a]);
                },
                (None, Some(b)) => {
                    if b < table.len() {
                        assert(more[b] == table[b]);
                    }
                },
                (None, None) => {},
            }
        },
    }
}

/// A total that is what rows add up to, where some rows count towards it.
spec fn summed(total: Option<Tokens>, any: bool, sum: Tokens) -> bool {
    match total {
        Some(tokens) => any && tokens == sum.held(),
        None => !any && sum == Tokens::none(),
    }
}

proof fn lemma_with_days(
    table: Seq<DailyGroup>,
    account: Seq<char>,
    rows: Seq<CindyDailyUsage>,
    key: UsageKey,
    model: Seq<char>,
    any: bool,
    sum: Tokens,
    app: Seq<char>,
)
    requires
        summed(total_of(table, key, model), any, sum),
        Tokens::none().within(sum),
    ensures
        summed(
            total_of(cindy_ledger::with_days(table, account, rows, app), key, model),
            any || any_row(account, rows, key, model, app),
            sum.plus(rows_sum(account, rows, key, model, app)),
        ),
        Tokens::none().within(rows_sum(account, rows, key, model, app)),
    decreases rows.len(),
{
    if rows.len() > 0 {
        let fewer = rows.drop_last();
        lemma_with_days(table, account, fewer, key, model, any, sum, app);
        lemma_with_daily(
            cindy_ledger::with_days(table, account, fewer, app),
            account,
            rows.last(),
            key,
            model,
            app,
        );
    }
}

proof fn lemma_table(
    sources: Seq<CindyUsageSnapshot>,
    key: UsageKey,
    model: Seq<char>,
    app: Seq<char>,
)
    ensures
        summed(
            total_of(cindy_ledger::daily_table(sources, app), key, model),
            any_used(sources, key, model, app),
            used(sources, key, model, app),
        ),
        Tokens::none().within(used(sources, key, model, app)),
    decreases sources.len(),
{
    if sources.len() > 0 {
        let fewer = sources.drop_last();
        lemma_table(fewer, key, model, app);
        lemma_with_days(
            cindy_ledger::daily_table(fewer, app),
            sources.last().account_id@,
            sources.last().daily@,
            key,
            model,
            any_used(fewer, key, model, app),
            used(fewer, key, model, app),
            app,
        );
    }
}

/// The daily table holds a total for each model under each key that some row
/// has, and it is what those rows add up to, as far as 64 bits can hold it.
pub proof fn law_daily_total_sums_its_rows(
    sources: Seq<CindyUsageSnapshot>,
    key: UsageKey,
    model: Seq<char>,
    app: Seq<char>,
)
    ensures
        match total_of(cindy_ledger::daily_table(sources, app), key, model) {
            Some(tokens) => any_used(sources, key, model, app) && tokens == used(
                sources,
                key,
                model,
                app,
            ).held(),
            None => !any_used(sources, key, model, app),
        },
{
    lemma_table(sources, key, model, app);
}

/// A refresh keeps Cindy's usage: for every daily total, the turns that are
/// written and what is left of the total together are what Cindy's rows add
/// up to, and nothing that is left is below zero. Every turn has a request id
/// of its own.
pub proof fn law_refresh_keeps_daily_usage(
    sources: Seq<CindyUsageSnapshot>,
    outcomes: Seq<DesktopUsageInsertOutcome>,
    d: int,
    m: int,
    app: Seq<char>,
)
    requires
        cindy_assign::distinct_ids(cindy_laws::all_turns(sources)),
        0 <= d < cindy_ledger::daily_table(sources, app).len(),
        0 <= m < cindy_ledger::daily_table(sources, app)[d].models.len(),
    ensures
        ({
            let group = cindy_ledger::daily_table(sources, app)[d];
            let total = group.models[m];
            let plan = cindy_plan::cindy_plan(sources, app);
            let left = cindy_settle::residual(group.key, total, plan, outcomes).tokens;
            let written = cindy_settle::covered(plan, group.key, total.model).held();
            &&& left.plus(written) == used(sources, group.key, total.model, app).held()
            &&& Tokens::none().within(left)
        }),
{
    let table = cindy_ledger::daily_table(sources, app);
    let group = table[d];
    let total = group.models[m];
    cindy_laws::law_daily_table_is_sound(sources, d, app);
    cindy_laws::law_planned_turns_fit(sources, d, m, app);
    law_daily_total_sums_its_rows(sources, group.key, total.model, app);
    cindy_ledger::lemma_daily_from(table, group.key, 0);
    cindy_ledger::lemma_model_from(group.models, total.model, 0);
    assert(cindy_ledger::daily_from(table, group.key, 0) == Some(d));
    assert(cindy_ledger::model_from(group.models, total.model, 0) == Some(m));
}

/// The costs of a model, if it has a total.
pub open spec fn model_costs(models: Seq<SourceTotal>, model: Seq<char>) -> Option<Seq<CindyCost>> {
    match cindy_ledger::model_from(models, model, 0) {
        Some(m) => Some(models[m].costs),
        None => None,
    }
}

/// The costs of a model under a key, if it has a total there.
pub open spec fn costs_of(table: Seq<DailyGroup>, key: UsageKey, model: Seq<char>) -> Option<
    Seq<CindyCost>,
> {
    match cindy_ledger::daily_from(table, key, 0) {
        Some(g) => model_costs(table[g].models, model),
        None => None,
    }
}

/// Costs with one more.
pub open spec fn noted(costs: Option<Seq<CindyCost>>, cost: CindyCost) -> Option<Seq<CindyCost>> {
    match costs {
        Some(before) => Some(before.push(cost)),
        None => Some(seq![cost]),
    }
}

/// The costs of the rows of an account that count towards a total, in order.
pub open spec fn row_costs(
    account: Seq<char>,
    rows: Seq<CindyDailyUsage>,
    key: UsageKey,
    model: Seq<char>,
    app: Seq<char>,
) -> Seq<CindyCost>
    decreases rows.len(),
{
    if rows.len() == 0 {
        Seq::empty()
    } else {
        let rest = row_costs(account, rows.drop_last(), key, model, app);
        if counts_for(account, rows.last(), key, model, app) {
            rest.push(cindy::daily_cost(rows.last()))
        } else {
            rest
        }
    }
}

/// The costs of all rows that count towards a total, in order.
pub open spec fn all_costs(
    sources: Seq<CindyUsageSnapshot>,
    key: UsageKey,
    model: Seq<char>,
    app: Seq<char>,
) -> Seq<CindyCost>
    decreases sources.len(),
{
    if sources.len() == 0 {
        Seq::empty()
    } else {
        all_costs(sources.drop_last(), key, model, app) + row_costs(
            sources.last().account_id@,
            sources.last().daily@,
            key,
            model,
            app,
        )
    }
}

proof fn lemma_model_costs(
    models: Seq<SourceTotal>,
    model: Seq<char>,
    tokens: Tokens,
    cost: CindyCost,
    other: Seq<char>,
)
    ensures
        model_costs(cindy_ledger::with_total(models, model, tokens, cost), other) == if other
            == model {
            noted(model_costs(models, model), cost)
        } else {
            model_costs(models, other)
        },
{
    let more = cindy_ledger::with_total(models, model, tokens, cost);
    cindy_ledger::lemma_model_from(models, model, 0);
    cindy_ledger::lemma_model_from(models, other, 0);
    cindy_ledger::lemma_model_from(more, other, 0);
    match cindy_ledger::model_from(models, model, 0) {
        Some(m) => {
            assert forall|k: int| 0 <= k < models.len() implies (#[trigger] more[k]).model
                == models[k].model by {}
            match (
                cindy_ledger::model_from(models, other, 0),
                cindy_ledger::model_from(more, other, 0),
            ) {
                (Some(a), Some(b)) => {
                    assert(more[a].model == other && models[b].model == other);
                },
                (Some(a), None) => {
                    assert(more[a].model == other);
                },
                (None, Some(b)) => {
                    assert(models[b].model == other);
                },
                (None, None) => {},
            }
        },
        None => {
            assert forall|k: int| 0 <= k < models.len() implies #[trigger] more[k]
                == models[k] by {}
            assert(more[models.len() as int].model == model);
            match (
                cindy_ledger::model_from(models, other, 0),
                cindy_ledger::model_from(more, other, 0),
            ) {
                (Some(a), Some(b)) => {
                    assert(more[a] == models[a]);
                    if b < models.len() {
                        assert(more[b] == models[b]);
                    }
                },
                (Some(a), None) => {
                    assert(more[a] == models[a]);
                },
                (None, Some(b)) => {
                    if b < models.len() {
                        assert(more[b] == models[b]);
                    }
                },
                (None, None) => {},
            }
        },
    }
}

proof fn lemma_daily_costs(
    table: Seq<DailyGroup>,
    account: Seq<char>,
    row: CindyDailyUsage,
    key: UsageKey,
    model: Seq<char>,
    app: Seq<char>,
)
    ensures
        costs_of(cindy_ledger::with_daily(table, account, row, app), key, model) == if counts_for(
            account,
            row,
            key,
            model,
            app,
        ) {
            noted(costs_of(table, key, model), cindy::daily_cost(row))
        } else {
            costs_of(table, key, model)
        },
{
    let more = cindy_ledger::with_daily(table, account, row, app);
    let own = cindy_ledger::daily_key(account, row, app);
    let (name, tokens, cost) = (
        cindy_ledger::source_model(row),
        cindy::daily_tokens(row),
        cindy::daily_cost(row),
    );
    cindy_ledger::lemma_daily_from(table, own, 0);
    cindy_ledger::lemma_daily_from(table, key, 0);
    cindy_ledger::lemma_daily_from(more, key, 0);
    match cindy_ledger::daily_from(table, own, 0) {
        Some(g) => {
            lemma_model_costs(table[g].models, name, tokens, cost, model);
            assert forall|k: int| 0 <= k < table.len() implies (#[trigger] more[k]).key
                == table[k].key by {}
            match (
                cindy_ledger::daily_from(table, key, 0),
                cindy_ledger::daily_from(more, key, 0),
            ) {
                (Some(a), Some(b)) => {
                    assert(more[a].key == key && table[b].key == key);
                },
                (Some(a), None) => {
                    assert(more[a].key == key);
                },
                (None, Some(b)) => {
                    assert(table[b].key == key);
                },
                (None, None) => {},
            }
        },
        None => {
            let none = Seq::<SourceTotal>::empty();
            lemma_model_costs(none, name, tokens, cost, model);
            assert(model_costs(none, model) is None);
            assert forall|k: int| 0 <= k < table.len() implies #[trigger] more[k] == table[k] by {}
            assert(more[table.len() as int].key == own);
            match (
                cindy_ledger::daily_from(table, key, 0),
                cindy_ledger::daily_from(more, key, 0),
            ) {
                (Some(a), Some(b)) => {
                    assert(more[a] == table[a]);
                    if b < table.len() {
                        assert(more[b] == table[b]);
                    }
                },
                (Some(a), None) => {
                    assert(more[a] == table[a]);
                },
                (None, Some(b)) => {
                    if b < table.len() {
                        assert(more[b] == table[b]);
                    }
                },
                (None, None) => {},
            }
        },
    }
}

/// Costs that are those of rows, where some rows count.
spec fn listed(costs: Option<Seq<CindyCost>>, rows: Seq<CindyCost>) -> bool {
    match costs {
        Some(list) => rows.len() > 0 && list == rows,
        None => rows.len() == 0,
    }
}

proof fn lemma_days_costs(
    table: Seq<DailyGroup>,
    account: Seq<char>,
    rows: Seq<CindyDailyUsage>,
    key: UsageKey,
    model: Seq<char>,
    before: Seq<CindyCost>,
    app: Seq<char>,
)
    requires
        listed(costs_of(table, key, model), before),
    ensures
        listed(
            costs_of(cindy_ledger::with_days(table, account, rows, app), key, model),
            before + row_costs(account, rows, key, model, app),
        ),
    decreases rows.len(),
{
    if rows.len() == 0 {
        assert(before + row_costs(account, rows, key, model, app) =~= before);
    } else {
        let fewer = rows.drop_last();
        let some = row_costs(account, fewer, key, model, app);
        let cost = cindy::daily_cost(rows.last());
        lemma_days_costs(table, account, fewer, key, model, before, app);
        lemma_daily_costs(
            cindy_ledger::with_days(table, account, fewer, app),
            account,
            rows.last(),
            key,
            model,
            app,
        );
        assert(before + some.push(cost) =~= (before + some).push(cost));
        if (before + some).len() == 0 {
            assert((before + some).push(cost) =~= seq![cost]);
        }
    }
}

/// The daily table keeps with each total the costs of all rows that count
/// towards it, in their order, and of no other.
pub proof fn law_daily_total_keeps_the_costs_of_its_rows(
    sources: Seq<CindyUsageSnapshot>,
    key: UsageKey,
    model: Seq<char>,
    app: Seq<char>,
)
    ensures
        match costs_of(cindy_ledger::daily_table(sources, app), key, model) {
            Some(costs) => costs == all_costs(sources, key, model, app),
            None => all_costs(sources, key, model, app).len() == 0,
        },
{
    lemma_table_costs(sources, key, model, app);
}

proof fn lemma_table_costs(
    sources: Seq<CindyUsageSnapshot>,
    key: UsageKey,
    model: Seq<char>,
    app: Seq<char>,
)
    ensures
        listed(
            costs_of(cindy_ledger::daily_table(sources, app), key, model),
            all_costs(sources, key, model, app),
        ),
    decreases sources.len(),
{
    if sources.len() > 0 {
        lemma_table_costs(sources.drop_last(), key, model, app);
        lemma_days_costs(
            cindy_ledger::daily_table(sources.drop_last(), app),
            sources.last().account_id@,
            sources.last().daily@,
            key,
            model,
            all_costs(sources.drop_last(), key, model, app),
            app,
        );
    }
}

/// A row counts towards the total of its own account, day, agent and model, and
/// towards no other.
pub proof fn law_rows_count_where_they_belong(
    account: Seq<char>,
    row: CindyDailyUsage,
    key: UsageKey,
    model: Seq<char>,
    app: Seq<char>,
)
    ensures
        counts_for(account, row, key, model, app) ==> {
            &&& key.account == account
            &&& key.day == row.day@
            &&& row.agent_kind@ != "cc"@ ==> key.agent == row.agent_kind@
            &&& row.agent_kind@ == "cc"@ ==> key.agent == app + "-code"@
            &&& !text::blank(row.model@) ==> model == row.model@
            &&& text::blank(row.model@) ==> model == "unknown"@
        },
        counts_for(
            account,
            row,
            cindy_ledger::daily_key(account, row, app),
            cindy_ledger::source_model(row),
            app,
        ),
{
}

} // verus!
