//! A refresh keeps Cindy's usage of every model, over all accounts, days and
//! agents.

use vstd::prelude::*;
use crate::cindy;
use crate::cindy::{CindyCost, CindyDailyUsage, Tokens};
use crate::cindy_assign;
use crate::cindy_assign::SourceTotal;
use crate::cindy_laws;
use crate::cindy_ledger;
use crate::cindy_ledger::{CindyUsageSnapshot, DailyGroup, UsageKey};
use crate::cindy_plan;
use crate::cindy_plan::PlannedTurn;
use crate::cindy_settle;
use crate::cindy_settle::Residual;
use crate::usage::DesktopUsageInsertOutcome;

verus! {

/// Tokens of a model, where it is that one.
pub open spec fn if_of(tokens: Tokens, name: Seq<char>, model: Seq<char>) -> Tokens {
    if name == model {
        tokens
    } else {
        Tokens::none()
    }
}

/// The tokens that the rows of an account have of a model.
pub open spec fn rows_used(rows: Seq<CindyDailyUsage>, model: Seq<char>) -> Tokens
    decreases rows.len(),
{
    if rows.len() == 0 {
        Tokens::none()
    } else {
        rows_used(rows.drop_last(), model).plus(
            if_of(cindy::daily_tokens(rows.last()), cindy_ledger::source_model(rows.last()), model),
        )
    }
}

/// The tokens that all daily rows have of a model.
pub open spec fn model_used(sources: Seq<CindyUsageSnapshot>, model: Seq<char>) -> Tokens
    decreases sources.len(),
{
    if sources.len() == 0 {
        Tokens::none()
    } else {
        model_used(sources.drop_last(), model).plus(rows_used(sources.last().daily@, model))
    }
}

/// The tokens of a model in the planned turns.
pub open spec fn turn_sum(plan: Seq<PlannedTurn>, model: Seq<char>) -> Tokens
    decreases plan.len(),
{
    if plan.len() == 0 {
        Tokens::none()
    } else {
        turn_sum(plan.drop_last(), model).plus(
            if_of(
                cindy_settle::record_tokens(plan.last().record),
                plan.last().record.model,
                model,
            ),
        )
    }
}

/// The tokens of a model in the planned turns whose row was written.
pub open spec fn written_sum(
    plan: Seq<PlannedTurn>,
    outcomes: Seq<DesktopUsageInsertOutcome>,
    model: Seq<char>,
) -> Tokens
    decreases plan.len(),
{
    if plan.len() == 0 {
        Tokens::none()
    } else {
        let rest = written_sum(plan.drop_last(), outcomes.drop_last(), model);
        if cindy_settle::wrote_row(outcomes.last()) {
            rest.plus(
                if_of(
                    cindy_settle::record_tokens(plan.last().record),
                    plan.last().record.model,
                    model,
                ),
            )
        } else {
            rest
        }
    }
}

/// The tokens of a model in the rows for what is left, where `costs` are the
/// dollars that are left.
pub open spec fn rollup_sum(
    left: Seq<Residual>,
    costs: Seq<u64>,
    mirror_model: Seq<char>,
    app: Seq<char>,
    model: Seq<char>,
) -> Tokens
    decreases left.len(),
{
    if left.len() == 0 {
        Tokens::none()
    } else {
        let rest = rollup_sum(left.drop_last(), costs.drop_last(), mirror_model, app, model);
        match cindy_settle::rollup_row(left.last(), costs.last(), mirror_model, app) {
            Some(row) => rest.plus(if_of(row.tokens, row.model, model)),
            None => rest,
        }
    }
}

/// The tokens that totals have of a model.
spec fn models_sum(models: Seq<SourceTotal>, model: Seq<char>) -> Tokens
    decreases models.len(),
{
    if models.len() == 0 {
        Tokens::none()
    } else {
        models_sum(models.drop_last(), model).plus(
            if_of(models.last().tokens, models.last().model, model),
        )
    }
}

/// The tokens that a table has of a model.
spec fn table_sum(table: Seq<DailyGroup>, model: Seq<char>) -> Tokens
    decreases table.len(),
{
    if table.len() == 0 {
        Tokens::none()
    } else {
        table_sum(table.drop_last(), model).plus(models_sum(table.last().models, model))
    }
}

/// No total is below zero.
spec fn counted(models: Seq<SourceTotal>) -> bool {
    forall|m: int|
        0 <= m < models.len() ==> Tokens::none().within((#[trigger] models[m]).tokens)
}

/// No total of a table is below zero.
spec fn counted_table(table: Seq<DailyGroup>) -> bool {
    forall|g: int| 0 <= g < table.len() ==> counted((#[trigger] table[g]).models)
}

proof fn lemma_models_update(
    models: Seq<SourceTotal>,
    i: int,
    total: SourceTotal,
    model: Seq<char>,
)
    requires
        0 <= i < models.len(),
    ensures
        models_sum(models.update(i, total), model).plus(
            if_of(models[i].tokens, models[i].model, model),
        ) == models_sum(models, model).plus(if_of(total.tokens, total.model, model)),
    decreases models.len(),
{
    let more = models.update(i, total);
    if i < models.len() - 1 {
        lemma_models_update(models.drop_last(), i, total, model);
        assert(more.drop_last() =~= models.drop_last().update(i, total));
    } else {
        assert(more.drop_last() =~= models.drop_last());
    }
}

proof fn lemma_table_update(
    table: Seq<DailyGroup>,
    i: int,
    group: DailyGroup,
    model: Seq<char>,
)
    requires
        0 <= i < table.len(),
    ensures
        table_sum(table.update(i, group), model).plus(models_sum(table[i].models, model))
            == table_sum(table, model).plus(models_sum(group.models, model)),
    decreases table.len(),
{
    let more = table.update(i, group);
    if i < table.len() - 1 {
        lemma_table_update(table.drop_last(), i, group, model);
        assert(more.drop_last() =~= table.drop_last().update(i, group));
    } else {
        assert(more.drop_last() =~= table.drop_last());
    }
}

proof fn lemma_model_within(models: Seq<SourceTotal>, i: int, model: Seq<char>)
    requires
        counted(models),
        -1 <= i < models.len(),
    ensures
        Tokens::none().within(models_sum(models, model)),
        i >= 0 && models[i].model == model ==> models[i].tokens.within(models_sum(models, model)),
    decreases models.len(),
{
    if models.len() > 0 {
        let fewer = models.drop_last();
        assert forall|m: int| 0 <= m < fewer.len() implies Tokens::none().within(
            (#[trigger] fewer[m]).tokens,
        ) by {
            assert(fewer[m] == models[m]);
        }
        assert(Tokens::none().within(models[models.len() - 1].tokens));
        if i < fewer.len() {
            lemma_model_within(fewer, i, model);
        } else {
            lemma_model_within(fewer, -1, model);
        }
    }
}

proof fn lemma_group_within(table: Seq<DailyGroup>, i: int, model: Seq<char>)
    requires
        counted_table(table),
        -1 <= i < table.len(),
    ensures
        Tokens::none().within(table_sum(table, model)),
        i >= 0 ==> models_sum(table[i].models, model).within(table_sum(table, model)),
    decreases table.len(),
{
    if table.len() > 0 {
        let fewer = table.drop_last();
        assert forall|g: int| 0 <= g < fewer.len() implies counted(
            (#[trigger] fewer[g]).models,
        ) by {
            assert(fewer[g] == table[g]);
        }
        assert(counted(table[table.len() - 1].models));
        lemma_model_within(table.last().models, -1, model);
        if i < fewer.len() {
            lemma_group_within(fewer, i, model);
        } else {
            lemma_group_within(fewer, -1, model);
        }
    }
}

proof fn lemma_with_total(
    models: Seq<SourceTotal>,
    name: Seq<char>,
    tokens: Tokens,
    cost: CindyCost,
    model: Seq<char>,
)
    requires
        counted(models),
        Tokens::none().within(tokens),
        name == model ==> models_sum(models, model).plus(tokens).held() == models_sum(
            models,
            model,
        ).plus(tokens),
    ensures
        models_sum(cindy_ledger::with_total(models, name, tokens, cost), model) == models_sum(
            models,
            model,
        ).plus(if_of(tokens, name, model)),
        counted(cindy_ledger::with_total(models, name, tokens, cost)),
{
    let more = cindy_ledger::with_total(models, name, tokens, cost);
    cindy_ledger::lemma_model_from(models, name, 0);
    match cindy_ledger::model_from(models, name, 0) {
        Some(m) => {
            lemma_model_within(models, m, model);
            lemma_models_update(models, m, more[m], model);
            assert(Tokens::none().within(models[m].tokens));
        },
        None => {
            assert(more.drop_last() =~= models);
        },
    }
}

proof fn lemma_with_daily(
    table: Seq<DailyGroup>,
    account: Seq<char>,
    row: CindyDailyUsage,
    model: Seq<char>,
    app: Seq<char>,
)
    requires
        counted_table(table),
        ({
            let sum = table_sum(table, model).plus(
                if_of(cindy::daily_tokens(row), cindy_ledger::source_model(row), model),
            );
            sum.held() == sum
        }),
    ensures
        table_sum(cindy_ledger::with_daily(table, account, row, app), model) == table_sum(
            table,
            model,
        ).plus(if_of(cindy::daily_tokens(row), cindy_ledger::source_model(row), model)),
        counted_table(cindy_ledger::with_daily(table, account, row, app)),
{
    let more = cindy_ledger::with_daily(table, account, row, app);
    let key = cindy_ledger::daily_key(account, row, app);
    let name = cindy_ledger::source_model(row);
    let tokens = cindy::daily_tokens(row);
    let cost = cindy::daily_cost(row);
    cindy_ledger::lemma_daily_from(table, key, 0);
    match cindy_ledger::daily_from(table, key, 0) {
        Some(g) => {
            lemma_group_within(table, g, model);
            assert(counted(table[g].models));
            lemma_model_within(table[g].models, -1, model);
            lemma_with_total(table[g].models, name, tokens, cost, model);
            lemma_table_update(table, g, more[g], model);
        },
        None => {
            lemma_group_within(table, -1, model);
            let none = Seq::<SourceTotal>::empty();
            assert(models_sum(none, model) == Tokens::none());
            lemma_with_total(none, name, tokens, cost, model);
            assert(more.drop_last() =~= table);
        },
    }
}

proof fn lemma_rows_within(rows: Seq<CindyDailyUsage>, model: Seq<char>)
    ensures
        Tokens::none().within(rows_used(rows, model)),
    decreases rows.len(),
{
    if rows.len() > 0 {
        lemma_rows_within(rows.drop_last(), model);
    }
}

proof fn lemma_with_days(
    table: Seq<DailyGroup>,
    account: Seq<char>,
    rows: Seq<CindyDailyUsage>,
    model: Seq<char>,
    app: Seq<char>,
)
    requires
        counted_table(table),
        table_sum(table, model).plus(rows_used(rows, model)).held() == table_sum(
            table,
            model,
        ).plus(rows_used(rows, model)),
    ensures
        table_sum(cindy_ledger::with_days(table, account, rows, app), model) == table_sum(
            table,
            model,
        ).plus(rows_used(rows, model)),
        counted_table(cindy_ledger::with_days(table, account, rows, app)),
    decreases rows.len(),
{
    if rows.len() > 0 {
        let fewer = rows.drop_last();
        lemma_rows_within(fewer, model);
        lemma_group_within(table, -1, model);
        lemma_with_days(table, account, fewer, model, app);
        lemma_with_daily(
            cindy_ledger::with_days(table, account, fewer, app),
            account,
            rows.last(),
            model,
            app,
        );
    }
}

/// The daily table has of a model what all rows add up to.
proof fn lemma_table(sources: Seq<CindyUsageSnapshot>, model: Seq<char>, app: Seq<char>)
    requires
        model_used(sources, model).held() == model_used(sources, model),
    ensures
        table_sum(cindy_ledger::daily_table(sources, app), model) == model_used(sources, model),
        counted_table(cindy_ledger::daily_table(sources, app)),
        Tokens::none().within(model_used(sources, model)),
    decreases sources.len(),
{
    if sources.len() > 0 {
        let fewer = sources.drop_last();
        lemma_rows_within(sources.last().daily@, model);
        lemma_used_within(fewer, model);
        lemma_table(fewer, model, app);
        lemma_with_days(
            cindy_ledger::daily_table(fewer, app),
            sources.last().account_id@,
            sources.last().daily@,
            model,
            app,
        );
    }
}

proof fn lemma_used_within(sources: Seq<CindyUsageSnapshot>, model: Seq<char>)
    ensures
        Tokens::none().within(model_used(sources, model)),
    decreases sources.len(),
{
    if sources.len() > 0 {
        lemma_used_within(sources.drop_last(), model);
        lemma_rows_within(sources.last().daily@, model);
    }
}

/// What is left of a model.
spec fn left_sum(left: Seq<Residual>, model: Seq<char>) -> Tokens
    decreases left.len(),
{
    if left.len() == 0 {
        Tokens::none()
    } else {
        left_sum(left.drop_last(), model).plus(
            if_of(left.last().tokens, left.last().model, model),
        )
    }
}

proof fn lemma_left_sum(a: Seq<Residual>, b: Seq<Residual>, model: Seq<char>)
    ensures
        left_sum(a + b, model) == left_sum(a, model).plus(left_sum(b, model)),
    decreases b.len(),
{
    if b.len() == 0 {
        assert(a + b =~= a);
    } else {
        assert((a + b).drop_last() =~= a + b.drop_last());
        lemma_left_sum(a, b.drop_last(), model);
    }
}

/// The rows for what is left have all tokens that are left.
proof fn lemma_rollups(
    left: Seq<Residual>,
    costs: Seq<u64>,
    mirror_model: Seq<char>,
    app: Seq<char>,
    model: Seq<char>,
)
    requires
        costs.len() == left.len(),
    ensures
        rollup_sum(left, costs, mirror_model, app, model) == left_sum(left, model),
    decreases left.len(),
{
    if left.len() > 0 {
        lemma_rollups(left.drop_last(), costs.drop_last(), mirror_model, app, model);
    }
}

/// What the plan covers of a model among totals under one key.
spec fn cover_models(
    key: UsageKey,
    models: Seq<SourceTotal>,
    plan: Seq<PlannedTurn>,
    model: Seq<char>,
) -> Tokens
    decreases models.len(),
{
    if models.len() == 0 {
        Tokens::none()
    } else {
        cover_models(key, models.drop_last(), plan, model).plus(
            if_of(
                cindy_settle::covered(plan, key, models.last().model),
                models.last().model,
                model,
            ),
        )
    }
}

/// What the plan covers of a model in a table.
spec fn cover_table(daily: Seq<DailyGroup>, plan: Seq<PlannedTurn>, model: Seq<char>) -> Tokens
    decreases daily.len(),
{
    if daily.len() == 0 {
        Tokens::none()
    } else {
        cover_table(daily.drop_last(), plan, model).plus(
            cover_models(daily.last().key, daily.last().models, plan, model),
        )
    }
}

proof fn lemma_covered_within(plan: Seq<PlannedTurn>, key: UsageKey, model: Seq<char>)
    ensures
        Tokens::none().within(cindy_settle::covered(plan, key, model)),
        cindy_settle::covered(plan, key, model).within(turn_sum(plan, model)),
    decreases plan.len(),
{
    if plan.len() > 0 {
        lemma_covered_within(plan.drop_last(), key, model);
    }
}

proof fn lemma_group_left(
    key: UsageKey,
    models: Seq<SourceTotal>,
    plan: Seq<PlannedTurn>,
    outcomes: Seq<DesktopUsageInsertOutcome>,
    model: Seq<char>,
)
    requires
        turn_sum(plan, model).held() == turn_sum(plan, model),
    ensures
        left_sum(cindy_settle::group_residuals(key, models, plan, outcomes), model).plus(
            cover_models(key, models, plan, model),
        ) == models_sum(models, model),
    decreases models.len(),
{
    let left = cindy_settle::group_residuals(key, models, plan, outcomes);
    if models.len() > 0 {
        lemma_group_left(key, models.drop_last(), plan, outcomes, model);
        assert(left.drop_last() =~= cindy_settle::group_residuals(
            key,
            models.drop_last(),
            plan,
            outcomes,
        ));
        assert(left.last() == cindy_settle::residual(key, models.last(), plan, outcomes));
        lemma_covered_within(plan, key, model);
    }
}

/// What is left of a model and what the plan covers of it make the totals.
proof fn lemma_all_left(
    daily: Seq<DailyGroup>,
    plan: Seq<PlannedTurn>,
    outcomes: Seq<DesktopUsageInsertOutcome>,
    model: Seq<char>,
)
    requires
        turn_sum(plan, model).held() == turn_sum(plan, model),
    ensures
        left_sum(cindy_settle::all_residuals(daily, plan, outcomes), model).plus(
            cover_table(daily, plan, model),
        ) == table_sum(daily, model),
    decreases daily.len(),
{
    if daily.len() > 0 {
        let fewer = daily.drop_last();
        lemma_all_left(fewer, plan, outcomes, model);
        lemma_group_left(daily.last().key, daily.last().models, plan, outcomes, model);
        lemma_left_sum(
            cindy_settle::all_residuals(fewer, plan, outcomes),
            cindy_settle::group_residuals(
                daily.last().key,
                daily.last().models,
                plan,
                outcomes,
            ),
            model,
        );
    }
}

/// Some total is of the model.
spec fn named(models: Seq<SourceTotal>, model: Seq<char>) -> bool {
    exists|m: int| 0 <= m < models.len() && (#[trigger] models[m]).model == model
}

/// No two totals are of one model.
spec fn names_apart(models: Seq<SourceTotal>) -> bool {
    forall|m: int, n: int|
        0 <= m < n < models.len() ==> (#[trigger] models[m]).model != (#[trigger] models[n]).model
}

/// A turn more counts once among totals of different models, where its model
/// is one of them.
proof fn lemma_cover_models(
    key: UsageKey,
    models: Seq<SourceTotal>,
    plan: Seq<PlannedTurn>,
    model: Seq<char>,
)
    requires
        plan.len() > 0,
        names_apart(models),
    ensures
        cover_models(key, models, plan, model) == cover_models(
            key,
            models,
            plan.drop_last(),
            model,
        ).plus(
            if plan.last().key == key && named(models, model) {
                if_of(
                    cindy_settle::record_tokens(plan.last().record),
                    plan.last().record.model,
                    model,
                )
            } else {
                Tokens::none()
            },
        ),
    decreases models.len(),
{
    if models.len() > 0 {
        let fewer = models.drop_last();
        assert(names_apart(fewer)) by {
            assert forall|m: int, n: int| 0 <= m < n < fewer.len() implies (
            #[trigger] fewer[m]).model != (#[trigger] fewer[n]).model by {
                assert(models[m].model != models[n].model);
            }
        }
        lemma_cover_models(key, fewer, plan, model);
        let last = models.len() - 1;
        assert(models[last] == models.last());
        if models.last().model == model {
            assert(named(models, model));
            assert(!named(fewer, model)) by {
                if named(fewer, model) {
                    let m = choose|m: int|
                        0 <= m < fewer.len() && (#[trigger] fewer[m]).model == model;
                    assert(models[m].model != models[last].model);
                }
            }
        } else {
            assert(named(models, model) == named(fewer, model)) by {
                if named(models, model) {
                    let m = choose|m: int|
                        0 <= m < models.len() && (#[trigger] models[m]).model == model;
                    assert(fewer[m].model == model);
                }
                if named(fewer, model) {
                    let m = choose|m: int|
                        0 <= m < fewer.len() && (#[trigger] fewer[m]).model == model;
                    assert(models[m].model == model);
                }
            }
        }
    }
}

/// Some group of that key has a total of the model.
spec fn listed(daily: Seq<DailyGroup>, key: UsageKey, model: Seq<char>) -> bool {
    exists|d: int|
        0 <= d < daily.len() && (#[trigger] daily[d]).key == key && named(daily[d].models, model)
}

/// No two groups have one key, and no group has two totals of one model.
spec fn sound(daily: Seq<DailyGroup>) -> bool {
    &&& forall|g: int, h: int|
        0 <= g < h < daily.len() ==> (#[trigger] daily[g]).key != (#[trigger] daily[h]).key
    &&& forall|g: int| 0 <= g < daily.len() ==> names_apart((#[trigger] daily[g]).models)
}

/// A turn more counts once in a table, where a total is there for it.
proof fn lemma_cover_table(daily: Seq<DailyGroup>, plan: Seq<PlannedTurn>, model: Seq<char>)
    requires
        plan.len() > 0,
        sound(daily),
    ensures
        cover_table(daily, plan, model) == cover_table(daily, plan.drop_last(), model).plus(
            if listed(daily, plan.last().key, model) {
                if_of(
                    cindy_settle::record_tokens(plan.last().record),
                    plan.last().record.model,
                    model,
                )
            } else {
                Tokens::none()
            },
        ),
    decreases daily.len(),
{
    if daily.len() > 0 {
        let fewer = daily.drop_last();
        let key = plan.last().key;
        let last = daily.len() - 1;
        assert(daily[last] == daily.last());
        assert(sound(fewer)) by {
            assert forall|g: int, h: int| 0 <= g < h < fewer.len() implies (
            #[trigger] fewer[g]).key != (#[trigger] fewer[h]).key by {
                assert(daily[g].key != daily[h].key);
            }
            assert forall|g: int| 0 <= g < fewer.len() implies names_apart(
                (#[trigger] fewer[g]).models,
            ) by {
                assert(names_apart(daily[g].models));
            }
        }
        lemma_cover_table(fewer, plan, model);
        lemma_cover_models(daily.last().key, daily.last().models, plan, model);
        if daily.last().key == key && named(daily.last().models, model) {
            assert(listed(daily, key, model));
            assert(!listed(fewer, key, model)) by {
                if listed(fewer, key, model) {
                    let d = choose|d: int|
                        0 <= d < fewer.len() && (#[trigger] fewer[d]).key == key && named(
                            fewer[d].models,
                            model,
                        );
                    assert(daily[d].key != daily[last].key);
                }
            }
        } else {
            assert(listed(daily, key, model) == listed(fewer, key, model)) by {
                if listed(daily, key, model) {
                    let d = choose|d: int|
                        0 <= d < daily.len() && (#[trigger] daily[d]).key == key && named(
                            daily[d].models,
                            model,
                        );
                    assert(fewer[d] == daily[d]);
                }
                if listed(fewer, key, model) {
                    let d = choose|d: int|
                        0 <= d < fewer.len() && (#[trigger] fewer[d]).key == key && named(
                            fewer[d].models,
                            model,
                        );
                    assert(daily[d] == fewer[d]);
                }
            }
        }
    }
}

proof fn lemma_cover_nothing(daily: Seq<DailyGroup>, plan: Seq<PlannedTurn>, model: Seq<char>)
    requires
        plan.len() == 0,
    ensures
        cover_table(daily, plan, model) == Tokens::none(),
    decreases daily.len(),
{
    if daily.len() > 0 {
        lemma_cover_nothing(daily.drop_last(), plan, model);
        lemma_cover_no_model(daily.last().key, daily.last().models, plan, model);
    }
}

proof fn lemma_cover_no_model(
    key: UsageKey,
    models: Seq<SourceTotal>,
    plan: Seq<PlannedTurn>,
    model: Seq<char>,
)
    requires
        plan.len() == 0,
    ensures
        cover_models(key, models, plan, model) == Tokens::none(),
    decreases models.len(),
{
    if models.len() > 0 {
        lemma_cover_no_model(key, models.drop_last(), plan, model);
    }
}

/// Where each turn of a plan counts against a total, the totals together are
/// covered by all of them.
proof fn lemma_all_covered(daily: Seq<DailyGroup>, plan: Seq<PlannedTurn>, model: Seq<char>)
    requires
        sound(daily),
        forall|i: int| 0 <= i < plan.len() ==> cindy_laws::has_total(daily, #[trigger] plan[i]),
    ensures
        cover_table(daily, plan, model) == turn_sum(plan, model),
    decreases plan.len(),
{
    if plan.len() == 0 {
        lemma_cover_nothing(daily, plan, model);
    } else {
        let fewer = plan.drop_last();
        assert forall|i: int| 0 <= i < fewer.len() implies cindy_laws::has_total(
            daily,
            #[trigger] fewer[i],
        ) by {
            assert(fewer[i] == plan[i]);
        }
        lemma_all_covered(daily, fewer, model);
        lemma_cover_table(daily, plan, model);
        let turn = plan[plan.len() - 1];
        assert(cindy_laws::has_total(daily, turn));
        if turn.record.model == model {
            let (d, m) = choose|d: int, m: int|
                0 <= d < daily.len() && daily[d].key == turn.key && 0 <= m < daily[d].models.len()
                    && (#[trigger] daily[d].models[m]).model == turn.record.model;
            assert(named(daily[d].models, model));
            assert(listed(daily, turn.key, model));
        }
    }
}

proof fn lemma_written(
    plan: Seq<PlannedTurn>,
    outcomes: Seq<DesktopUsageInsertOutcome>,
    model: Seq<char>,
)
    requires
        outcomes.len() == plan.len(),
        forall|i: int|
            0 <= i < outcomes.len() ==> cindy_settle::wrote_row(#[trigger] outcomes[i]),
    ensures
        written_sum(plan, outcomes, model) == turn_sum(plan, model),
    decreases plan.len(),
{
    if plan.len() > 0 {
        let fewer = outcomes.drop_last();
        assert forall|i: int| 0 <= i < fewer.len() implies cindy_settle::wrote_row(
            #[trigger] fewer[i],
        ) by {
            assert(fewer[i] == outcomes[i]);
        }
        lemma_written(plan.drop_last(), fewer, model);
        assert(cindy_settle::wrote_row(outcomes[outcomes.len() - 1]));
    }
}

/// A refresh keeps Cindy's usage of every model: over all accounts, days and
/// agents, the planned turns and the rows for what is left have the tokens that
/// Cindy's daily rows have. Where each turn got a row, the rows that were
/// written have them. Every turn has a request id of its own, and the sums fit
/// into 64 bits.
pub proof fn law_refresh_keeps_usage_of_every_model(
    sources: Seq<CindyUsageSnapshot>,
    outcomes: Seq<DesktopUsageInsertOutcome>,
    costs: Seq<u64>,
    mirror_model: Seq<char>,
    model: Seq<char>,
    app: Seq<char>,
)
    requires
        cindy_assign::distinct_ids(cindy_laws::all_turns(sources)),
        outcomes.len() == cindy_plan::cindy_plan(sources, app).len(),
        costs.len() == cindy_settle::all_residuals(
            cindy_ledger::daily_table(sources, app),
            cindy_plan::cindy_plan(sources, app),
            outcomes,
        ).len(),
        model_used(sources, model).held() == model_used(sources, model),
        turn_sum(cindy_plan::cindy_plan(sources, app), model).held() == turn_sum(
            cindy_plan::cindy_plan(sources, app),
            model,
        ),
    ensures
        ({
            let plan = cindy_plan::cindy_plan(sources, app);
            let left = cindy_settle::all_residuals(
                cindy_ledger::daily_table(sources, app),
                plan,
                outcomes,
            );
            let rest = rollup_sum(left, costs, mirror_model, app, model);
            &&& turn_sum(plan, model).plus(rest) == model_used(sources, model)
            &&& (forall|i: int|
                0 <= i < outcomes.len() ==> cindy_settle::wrote_row(#[trigger] outcomes[i]))
                ==> written_sum(plan, outcomes, model).plus(rest) == model_used(sources, model)
        }),
{
    let daily = cindy_ledger::daily_table(sources, app);
    let plan = cindy_plan::cindy_plan(sources, app);
    let left = cindy_settle::all_residuals(daily, plan, outcomes);
    lemma_table(sources, model, app);
    lemma_all_left(daily, plan, outcomes, model);
    lemma_rollups(left, costs, mirror_model, app, model);
    assert forall|i: int| 0 <= i < plan.len() implies cindy_laws::has_total(
        daily,
        #[trigger] plan[i],
    ) by {
        cindy_laws::law_planned_turns_have_totals(sources, i, app);
    }
    assert(sound(daily)) by {
        assert forall|g: int, h: int| 0 <= g < h < daily.len() implies (#[trigger] daily[g]).key
            != (#[trigger] daily[h]).key by {
            cindy_laws::law_daily_table_is_sound(sources, g, app);
        }
        assert forall|g: int| 0 <= g < daily.len() implies names_apart(
            (#[trigger] daily[g]).models,
        ) by {
            cindy_laws::law_daily_table_is_sound(sources, g, app);
        }
    }
    lemma_all_covered(daily, plan, model);
    if forall|i: int| 0 <= i < outcomes.len() ==> cindy_settle::wrote_row(#[trigger] outcomes[i]) {
        lemma_written(plan, outcomes, model);
    }
}

} // verus!
