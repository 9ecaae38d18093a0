//! What holds of every refresh of Cindy's usage.

use vstd::prelude::*;
use crate::cindy;
use crate::cindy::{CindyDailyUsage, CindyTurnUsage, Tokens};
use crate::cindy_assign;
use crate::cindy_assign::SourceTotal;
use crate::cindy_ledger;
use crate::cindy_ledger::{CindyUsageSnapshot, DailyGroup, TurnGroup, UsageKey};
use crate::cindy_plan;
use crate::cindy_plan::PlannedTurn;
use crate::cindy_settle;
use crate::insert;
use crate::insert::{InsertEvent, InsertStage, UpstreamRow};
use crate::text;
use crate::usage::DesktopUsageInsertOutcome;

verus! {

/// The turns of all accounts, one after the other.
pub open spec fn all_turns(sources: Seq<CindyUsageSnapshot>) -> Seq<CindyTurnUsage>
    decreases sources.len(),
{
    if sources.len() == 0 {
        Seq::empty()
    } else {
        all_turns(sources.drop_last()) + sources.last().turns@
    }
}

/// No two groups have one key.
spec fn keys_apart(groups: Seq<TurnGroup>) -> bool {
    forall|g: int, h: int|
        0 <= g < h < groups.len() ==> (#[trigger] groups[g]).key != (#[trigger] groups[h]).key
}

/// The request id at a place in the groups.
spec fn id_at(groups: Seq<TurnGroup>, g: int, i: int) -> Seq<char> {
    groups[g].turns[i].request_id@
}

/// There is such a place.
spec fn in_groups(groups: Seq<TurnGroup>, g: int, i: int) -> bool {
    0 <= g < groups.len() && 0 <= i < groups[g].turns.len()
}

/// No two turns of the groups have one request id.
spec fn ids_apart(groups: Seq<TurnGroup>) -> bool {
    forall|g: int, i: int, h: int, j: int|
        #![trigger id_at(groups, g, i), id_at(groups, h, j)]
        in_groups(groups, g, i) && in_groups(groups, h, j) && (g != h || i != j) ==> id_at(
            groups,
            g,
            i,
        ) != id_at(groups, h, j)
}

/// Every request id of the groups is that of one of `turns`.
spec fn ids_from(groups: Seq<TurnGroup>, turns: Seq<CindyTurnUsage>) -> bool {
    forall|g: int, i: int|
        #![trigger id_at(groups, g, i)]
        in_groups(groups, g, i) ==> exists|k: int|
            0 <= k < turns.len() && (#[trigger] turns[k]).request_id@ == id_at(groups, g, i)
}

spec fn sound_groups(groups: Seq<TurnGroup>, turns: Seq<CindyTurnUsage>) -> bool {
    keys_apart(groups) && ids_apart(groups) && ids_from(groups, turns)
}

proof fn lemma_group_from(groups: Seq<TurnGroup>, key: UsageKey, from: int)
    requires
        0 <= from,
    ensures
        match cindy_ledger::group_from(groups, key, from) {
            Some(g) => from <= g < groups.len() && groups[g].key == key && forall|k: int|
                from <= k < g ==> (#[trigger] groups[k]).key != key,
            None => forall|k: int| from <= k < groups.len() ==> (#[trigger] groups[k]).key != key,
        },
    decreases groups.len() - from,
{
    if from < groups.len() && groups[from].key != key {
        lemma_group_from(groups, key, from + 1);
    }
}

proof fn lemma_with_turn(
    groups: Seq<TurnGroup>,
    turns: Seq<CindyTurnUsage>,
    key: UsageKey,
    turn: CindyTurnUsage,
)
    requires
        sound_groups(groups, turns),
        forall|k: int|
            0 <= k < turns.len() ==> (#[trigger] turns[k]).request_id@ != turn.request_id@,
    ensures
        sound_groups(cindy_ledger::with_turn(groups, key, turn), turns.push(turn)),
{
    let more = cindy_ledger::with_turn(groups, key, turn);
    let all = turns.push(turn);
    lemma_group_from(groups, key, 0);
    assert(all[turns.len() as int] == turn);
    let place = match cindy_ledger::group_from(groups, key, 0) {
        Some(g) => g,
        None => groups.len() as int,
    };
    let index = match cindy_ledger::group_from(groups, key, 0) {
        Some(g) => groups[g].turns.len() as int,
        None => 0,
    };
    assert forall|g: int, i: int| #[trigger] in_groups(more, g, i) implies if g == place && i
        == index {
        id_at(more, g, i) == turn.request_id@
    } else {
        in_groups(groups, g, i) && id_at(more, g, i) == id_at(groups, g, i)
    } by {}
    assert forall|g: int, i: int|
        #![trigger id_at(more, g, i)]
        in_groups(more, g, i) implies exists|k: int|
        0 <= k < all.len() && (#[trigger] all[k]).request_id@ == id_at(more, g, i) by {
        assert(in_groups(more, g, i));
        if g == place && i == index {
            assert(all[turns.len() as int].request_id@ == id_at(more, g, i));
        } else {
            let k = choose|k: int|
                0 <= k < turns.len() && (#[trigger] turns[k]).request_id@ == id_at(groups, g, i);
            assert(all[k] == turns[k]);
        }
    }
    assert forall|g: int, i: int, h: int, j: int|
        #![trigger id_at(more, g, i), id_at(more, h, j)]
        in_groups(more, g, i) && in_groups(more, h, j) && (g != h || i != j) implies id_at(
        more,
        g,
        i,
    ) != id_at(more, h, j) by {
        assert(in_groups(more, g, i) && in_groups(more, h, j));
        if g == place && i == index {
            let k = choose|k: int|
                0 <= k < turns.len() && (#[trigger] turns[k]).request_id@ == id_at(groups, h, j);
        } else if h == place && j == index {
            let k = choose|k: int|
                0 <= k < turns.len() && (#[trigger] turns[k]).request_id@ == id_at(groups, g, i);
        } else {
            assert(id_at(groups, g, i) != id_at(groups, h, j));
        }
    }
}

proof fn lemma_with_turns(
    groups: Seq<TurnGroup>,
    earlier: Seq<CindyTurnUsage>,
    account: Seq<char>,
    turns: Seq<CindyTurnUsage>,
    app: Seq<char>,
)
    requires
        sound_groups(groups, earlier),
        cindy_assign::distinct_ids(earlier + turns),
    ensures
        sound_groups(cindy_ledger::with_turns(groups, account, turns, app), earlier + turns),
    decreases turns.len(),
{
    if turns.len() == 0 {
        assert(earlier + turns =~= earlier);
    } else {
        let fewer = turns.drop_last();
        let all = earlier + turns;
        let before = earlier + fewer;
        assert(before =~= all.drop_last());
        assert forall|i: int, j: int| 0 <= i < j < before.len() implies (
        #[trigger] before[i]).request_id@ != (#[trigger] before[j]).request_id@ by {
            assert(all[i].request_id@ != all[j].request_id@);
        }
        lemma_with_turns(groups, earlier, account, fewer, app);
        assert forall|k: int| 0 <= k < before.len() implies (#[trigger] before[k]).request_id@
            != turns.last().request_id@ by {
            assert(all[k].request_id@ != all[all.len() - 1].request_id@);
        }
        lemma_with_turn(
            cindy_ledger::with_turns(groups, account, fewer, app),
            before,
            cindy_ledger::turn_key(account, turns.last(), app),
            turns.last(),
        );
        assert(before.push(turns.last()) =~= all);
    }
}

proof fn lemma_turn_table(sources: Seq<CindyUsageSnapshot>, app: Seq<char>)
    requires
        cindy_assign::distinct_ids(all_turns(sources)),
    ensures
        sound_groups(cindy_ledger::turn_table(sources, app), all_turns(sources)),
    decreases sources.len(),
{
    if sources.len() > 0 {
        let fewer = sources.drop_last();
        let all = all_turns(sources);
        let before = all_turns(fewer);
        assert forall|i: int, j: int| 0 <= i < j < before.len() implies (
        #[trigger] before[i]).request_id@ != (#[trigger] before[j]).request_id@ by {
            assert(all[i] == before[i] && all[j] == before[j]);
            assert(all[i].request_id@ != all[j].request_id@);
        }
        lemma_turn_table(fewer, app);
        lemma_with_turns(
            cindy_ledger::turn_table(fewer, app),
            before,
            sources.last().account_id@,
            sources.last().turns@,
            app,
        );
    }
}

/// No two of the models have one name.
spec fn names_apart(models: Seq<SourceTotal>) -> bool {
    forall|m: int, n: int|
        0 <= m < n < models.len() ==> (#[trigger] models[m]).model != (#[trigger] models[n]).model
}

spec fn sound_models(models: Seq<SourceTotal>) -> bool {
    names_apart(models) && cindy_assign::counts(models)
}

spec fn sound_daily(groups: Seq<DailyGroup>) -> bool {
    &&& forall|g: int, h: int|
        0 <= g < h < groups.len() ==> (#[trigger] groups[g]).key != (#[trigger] groups[h]).key
    &&& forall|g: int| 0 <= g < groups.len() ==> sound_models((#[trigger] groups[g]).models)
}

proof fn lemma_with_total(
    models: Seq<SourceTotal>,
    model: Seq<char>,
    tokens: Tokens,
    cost: cindy::CindyCost,
)
    requires
        sound_models(models),
        Tokens::none().within(tokens),
    ensures
        sound_models(cindy_ledger::with_total(models, model, tokens, cost)),
{
    let more = cindy_ledger::with_total(models, model, tokens, cost);
    cindy_ledger::lemma_model_from(models, model, 0);
    assert forall|m: int| 0 <= m < more.len() implies Tokens::none().within(
        (#[trigger] more[m]).tokens,
    ) by {
        if m < models.len() {
            assert(Tokens::none().within(models[m].tokens));
        }
    }
    assert forall|m: int, n: int| 0 <= m < n < more.len() implies (#[trigger] more[m]).model != (
    #[trigger] more[n]).model by {
        if n < models.len() {
            assert(models[m].model != models[n].model);
        }
    }
}

proof fn lemma_with_daily(
    groups: Seq<DailyGroup>,
    account: Seq<char>,
    usage: CindyDailyUsage,
    app: Seq<char>,
)
    requires
        sound_daily(groups),
    ensures
        sound_daily(cindy_ledger::with_daily(groups, account, usage, app)),
{
    let key = cindy_ledger::daily_key(account, usage, app);
    let more = cindy_ledger::with_daily(groups, account, usage, app);
    cindy_ledger::lemma_daily_from(groups, key, 0);
    let models = match cindy_ledger::daily_from(groups, key, 0) {
        Some(g) => groups[g].models,
        None => Seq::empty(),
    };
    lemma_with_total(
        models,
        cindy_ledger::source_model(usage),
        cindy::daily_tokens(usage),
        cindy::daily_cost(usage),
    );
    assert forall|g: int| 0 <= g < more.len() implies sound_models((#[trigger] more[g]).models) by {
        if g < groups.len() {
            assert(sound_models(groups[g].models));
        }
    }
    assert forall|g: int, h: int| 0 <= g < h < more.len() implies (#[trigger] more[g]).key != (
    #[trigger] more[h]).key by {
        if h < groups.len() {
            assert(groups[g].key != groups[h].key);
        }
    }
}

proof fn lemma_with_days(
    groups: Seq<DailyGroup>,
    account: Seq<char>,
    rows: Seq<CindyDailyUsage>,
    app: Seq<char>,
)
    requires
        sound_daily(groups),
    ensures
        sound_daily(cindy_ledger::with_days(groups, account, rows, app)),
    decreases rows.len(),
{
    if rows.len() > 0 {
        lemma_with_days(groups, account, rows.drop_last(), app);
        lemma_with_daily(
            cindy_ledger::with_days(groups, account, rows.drop_last(), app),
            account,
            rows.last(),
            app,
        );
    }
}

proof fn lemma_daily_table(sources: Seq<CindyUsageSnapshot>, app: Seq<char>)
    ensures
        sound_daily(cindy_ledger::daily_table(sources, app)),
    decreases sources.len(),
{
    if sources.len() > 0 {
        lemma_daily_table(sources.drop_last(), app);
        lemma_with_days(
            cindy_ledger::daily_table(sources.drop_last(), app),
            sources.last().account_id@,
            sources.last().daily@,
            app,
        );
    }
}

/// In the daily table no two entries have one key, no two models of an entry
/// have one name, and no total is below zero.
pub proof fn law_daily_table_is_sound(sources: Seq<CindyUsageSnapshot>, g: int, app: Seq<char>)
    requires
        0 <= g < cindy_ledger::daily_table(sources, app).len(),
    ensures
        forall|h: int|
            0 <= h < cindy_ledger::daily_table(sources, app).len() && h != g ==> (
            #[trigger] cindy_ledger::daily_table(sources, app)[h]).key != cindy_ledger::daily_table(
                sources,
                app,
            )[g].key,
        forall|m: int, n: int|
            0 <= m < n < cindy_ledger::daily_table(sources, app)[g].models.len() ==> (
            #[trigger] cindy_ledger::daily_table(sources, app)[g].models[m]).model != (
            #[trigger] cindy_ledger::daily_table(sources, app)[g].models[n]).model,
        cindy_assign::counts(cindy_ledger::daily_table(sources, app)[g].models),
{
    lemma_daily_table(sources, app);
    let table = cindy_ledger::daily_table(sources, app);
    assert(sound_models(table[g].models));
}

proof fn lemma_model_for_sum(
    a: Seq<(Seq<char>, Seq<char>)>,
    b: Seq<(Seq<char>, Seq<char>)>,
    id: Seq<char>,
)
    ensures
        cindy_plan::model_for(a + b, id) == match cindy_plan::model_for(b, id) {
            Some(model) => Some(model),
            None => cindy_plan::model_for(a, id),
        },
    decreases b.len(),
{
    if b.len() == 0 {
        assert(a + b =~= a);
    } else {
        assert((a + b).drop_last() =~= a + b.drop_last());
        lemma_model_for_sum(a, b.drop_last(), id);
    }
}

proof fn lemma_model_for_absent(pairs: Seq<(Seq<char>, Seq<char>)>, id: Seq<char>)
    requires
        forall|k: int| 0 <= k < pairs.len() ==> (#[trigger] pairs[k]).0 != id,
    ensures
        cindy_plan::model_for(pairs, id) is None,
    decreases pairs.len(),
{
    if pairs.len() > 0 {
        lemma_model_for_absent(pairs.drop_last(), id);
    }
}

proof fn lemma_model_for_present(pairs: Seq<(Seq<char>, Seq<char>)>, i: int)
    requires
        0 <= i < pairs.len(),
        forall|k: int| 0 <= k < pairs.len() && k != i ==> (#[trigger] pairs[k]).0 != pairs[i].0,
    ensures
        cindy_plan::model_for(pairs, pairs[i].0) == Some(pairs[i].1),
    decreases pairs.len(),
{
    if i < pairs.len() - 1 {
        let fewer = pairs.drop_last();
        assert forall|k: int| 0 <= k < fewer.len() && k != i implies (#[trigger] fewer[k]).0
            != fewer[i].0 by {
            assert(pairs[k].0 != pairs[i].0);
        }
        lemma_model_for_present(fewer, i);
    }
}

/// The model that a turn's own group gives it.
spec fn own_model(daily: Seq<DailyGroup>, group: TurnGroup, i: int) -> Option<Seq<char>> {
    match cindy_plan::group_picks(daily, group) {
        Some(picks) => Some(
            daily[cindy_ledger::daily_from(daily, group.key, 0)->0].models[picks[i]].model,
        ),
        None => None,
    }
}

proof fn lemma_group_pairs(daily: Seq<DailyGroup>, groups: Seq<TurnGroup>, g: int, h: int, i: int)
    requires
        ids_apart(groups),
        0 <= g < groups.len(),
        in_groups(groups, h, i),
    ensures
        cindy_plan::model_for(cindy_plan::group_pairs(daily, groups[g]), id_at(groups, h, i))
            == if g == h {
            own_model(daily, groups[g], i)
        } else {
            None
        },
{
    let pairs = cindy_plan::group_pairs(daily, groups[g]);
    let id = id_at(groups, h, i);
    if cindy_plan::group_picks(daily, groups[g]) is Some {
        assert forall|k: int| 0 <= k < pairs.len() && (g != h || k != i) implies (
        #[trigger] pairs[k]).0 != id by {
            assert(in_groups(groups, g, k));
            assert(pairs[k].0 == id_at(groups, g, k));
        }
        if g == h {
            assert(pairs[i].0 == id);
            lemma_model_for_present(pairs, i);
        } else {
            lemma_model_for_absent(pairs, id);
        }
    }
}

proof fn lemma_accepted(daily: Seq<DailyGroup>, groups: Seq<TurnGroup>, n: int, h: int, i: int)
    requires
        ids_apart(groups),
        0 <= n <= groups.len(),
        in_groups(groups, h, i),
    ensures
        cindy_plan::model_for(cindy_plan::accepted(daily, groups.take(n)), id_at(groups, h, i))
            == if h < n {
            own_model(daily, groups[h], i)
        } else {
            None
        },
    decreases n,
{
    if n > 0 {
        lemma_accepted(daily, groups, n - 1, h, i);
        assert(groups.take(n).drop_last() =~= groups.take(n - 1));
        assert(groups.take(n).last() == groups[n - 1]);
        lemma_model_for_sum(
            cindy_plan::accepted(daily, groups.take(n - 1)),
            cindy_plan::group_pairs(daily, groups[n - 1]),
            id_at(groups, h, i),
        );
        lemma_group_pairs(daily, groups, n - 1, h, i);
    }
}

proof fn lemma_covered_sum(
    a: Seq<PlannedTurn>,
    b: Seq<PlannedTurn>,
    key: UsageKey,
    model: Seq<char>,
)
    ensures
        cindy_settle::covered(a + b, key, model) == cindy_settle::covered(a, key, model).plus(
            cindy_settle::covered(b, key, model),
        ),
    decreases b.len(),
{
    if b.len() == 0 {
        assert(a + b =~= a);
    } else {
        assert((a + b).drop_last() =~= a + b.drop_last());
        lemma_covered_sum(a, b.drop_last(), key, model);
    }
}

proof fn lemma_other_group(
    pairs: Seq<(Seq<char>, Seq<char>)>,
    other: UsageKey,
    turns: Seq<CindyTurnUsage>,
    key: UsageKey,
    model: Seq<char>,
    app: Seq<char>,
)
    requires
        other != key,
    ensures
        cindy_settle::covered(cindy_plan::group_plan(pairs, other, turns, app), key, model)
            == Tokens::none(),
    decreases turns.len(),
{
    if turns.len() > 0 {
        lemma_other_group(pairs, other, turns.drop_last(), key, model, app);
        let rest = cindy_plan::group_plan(pairs, other, turns.drop_last(), app);
        let all = cindy_plan::group_plan(pairs, other, turns, app);
        if all.len() > rest.len() {
            assert(all.drop_last() =~= rest);
        }
    }
}

/// What a group's own plan covers of a model is what its turns were given.
proof fn lemma_own_group(
    daily: Seq<DailyGroup>,
    pairs: Seq<(Seq<char>, Seq<char>)>,
    group: TurnGroup,
    n: int,
    m: int,
    app: Seq<char>,
)
    requires
        sound_daily(daily),
        0 <= n <= group.turns.len(),
        cindy_ledger::daily_from(daily, group.key, 0) is Some,
        0 <= m < daily[cindy_ledger::daily_from(daily, group.key, 0)->0].models.len(),
        forall|i: int|
            0 <= i < group.turns.len() ==> cindy_plan::model_for(
                pairs,
                (#[trigger] group.turns[i]).request_id@,
            ) == own_model(daily, group, i),
    ensures
        ({
            let models = daily[cindy_ledger::daily_from(daily, group.key, 0)->0].models;
            let given = cindy_settle::covered(
                cindy_plan::group_plan(pairs, group.key, group.turns.take(n), app),
                group.key,
                models[m].model,
            );
            match cindy_plan::group_picks(daily, group) {
                Some(picks) => given == cindy_assign::share(
                    group.turns.take(n),
                    cindy_assign::definite(picks).take(n),
                    Some(m),
                ),
                None => given == Tokens::none(),
            }
        }),
    decreases n,
{
    let d = cindy_ledger::daily_from(daily, group.key, 0)->0;
    let models = daily[d].models;
    cindy_ledger::lemma_daily_from(daily, group.key, 0);
    if n > 0 {
        lemma_own_group(daily, pairs, group, n - 1, m, app);
        let turns = group.turns.take(n);
        assert(turns.drop_last() =~= group.turns.take(n - 1));
        assert(turns.last() == group.turns[n - 1]);
        let rest = cindy_plan::group_plan(pairs, group.key, group.turns.take(n - 1), app);
        let all = cindy_plan::group_plan(pairs, group.key, turns, app);
        match cindy_plan::group_picks(daily, group) {
            Some(picks) => {
                cindy_assign::law_assigned_models_exist(models, group.turns);
                assert(all.drop_last() =~= rest);
                let given = cindy_assign::definite(picks);
                assert(given.take(n).drop_last() =~= given.take(n - 1));
                assert(given.take(n).last() == Some(picks[n - 1]));
                assert(sound_models(daily[d].models));
                let p = picks[n - 1];
                assert(p != m ==> models[p].model != models[m].model);
            },
            None => {
                assert(all =~= rest);
            },
        }
    }
}

proof fn lemma_plan_covers(
    daily: Seq<DailyGroup>,
    groups: Seq<TurnGroup>,
    n: int,
    d: int,
    m: int,
    app: Seq<char>,
)
    requires
        sound_daily(daily),
        keys_apart(groups),
        ids_apart(groups),
        0 <= n <= groups.len(),
        0 <= d < daily.len(),
        0 <= m < daily[d].models.len(),
    ensures
        ({
            let pairs = cindy_plan::accepted(daily, groups);
            let given = cindy_settle::covered(
                cindy_plan::full_plan(pairs, groups.take(n), app),
                daily[d].key,
                daily[d].models[m].model,
            );
            given == Tokens::none() || exists|g: int|
                0 <= g < n && (#[trigger] groups[g]).key == daily[d].key && cindy_plan::group_picks(
                    daily,
                    groups[g],
                ) is Some && given == cindy_assign::share(
                    groups[g].turns,
                    cindy_assign::definite(cindy_plan::group_picks(daily, groups[g])->0),
                    Some(m),
                )
        }),
        (forall|g: int| 0 <= g < n ==> (#[trigger] groups[g]).key != daily[d].key)
            ==> cindy_settle::covered(
            cindy_plan::full_plan(cindy_plan::accepted(daily, groups), groups.take(n), app),
            daily[d].key,
            daily[d].models[m].model,
        ) == Tokens::none(),
    decreases n,
{
    let pairs = cindy_plan::accepted(daily, groups);
    let key = daily[d].key;
    let model = daily[d].models[m].model;
    if n > 0 {
        lemma_plan_covers(daily, groups, n - 1, d, m, app);
        let group = groups[n - 1];
        let own = cindy_plan::group_plan(pairs, group.key, group.turns, app);
        assert(groups.take(n).drop_last() =~= groups.take(n - 1));
        assert(groups.take(n).last() == group);
        lemma_covered_sum(cindy_plan::full_plan(pairs, groups.take(n - 1), app), own, key, model);
        if group.key != key {
            lemma_other_group(pairs, group.key, group.turns, key, model, app);
        } else {
            assert forall|g: int| 0 <= g < n - 1 implies (#[trigger] groups[g]).key != key by {
                assert(groups[g].key != groups[n - 1].key);
            }
            cindy_ledger::lemma_daily_from(daily, key, 0);
            assert(cindy_ledger::daily_from(daily, key, 0) == Some(d));
            assert forall|i: int| 0 <= i < group.turns.len() implies cindy_plan::model_for(
                pairs,
                (#[trigger] group.turns[i]).request_id@,
            ) == own_model(daily, group, i) by {
                assert(in_groups(groups, n - 1, i));
                lemma_accepted(daily, groups, groups.len() as int, n - 1, i);
                assert(groups.take(groups.len() as int) =~= groups);
                assert(id_at(groups, n - 1, i) == group.turns[i].request_id@);
            }
            lemma_own_group(daily, pairs, group, group.turns.len() as int, m, app);
            assert(group.turns.take(group.turns.len() as int) =~= group.turns);
            if cindy_plan::group_picks(daily, group) is Some {
                let picks = cindy_plan::group_picks(daily, group)->0;
                cindy_assign::law_assigned_models_exist(daily[d].models, group.turns);
                let given = cindy_assign::definite(picks);
                assert(given.take(group.turns.len() as int) =~= given);
            }
        }
    }
}

proof fn lemma_no_group_fault(key: UsageKey, models: Seq<SourceTotal>, plan: Seq<PlannedTurn>)
    requires
        forall|m: int|
            0 <= m < models.len() ==> cindy_settle::covered(
                plan,
                key,
                (#[trigger] models[m]).model,
            ).held().within(models[m].tokens),
    ensures
        cindy_settle::group_fault(key, models, plan) is None,
    decreases models.len(),
{
    if models.len() > 0 {
        let fewer = models.drop_last();
        assert forall|m: int| 0 <= m < fewer.len() implies cindy_settle::covered(
            plan,
            key,
            (#[trigger] fewer[m]).model,
        ).held().within(fewer[m].tokens) by {
            assert(fewer[m] == models[m]);
        }
        lemma_no_group_fault(key, fewer, plan);
        assert(models.last() == models[models.len() - 1]);
    }
}

proof fn lemma_no_plan_fault(daily: Seq<DailyGroup>, plan: Seq<PlannedTurn>)
    requires
        forall|d: int|
            0 <= d < daily.len() ==> cindy_settle::group_fault(
                (#[trigger] daily[d]).key,
                daily[d].models,
                plan,
            ) is None,
    ensures
        cindy_settle::plan_fault(daily, plan) is None,
    decreases daily.len(),
{
    if daily.len() > 0 {
        let fewer = daily.drop_last();
        assert forall|d: int| 0 <= d < fewer.len() implies cindy_settle::group_fault(
            (#[trigger] fewer[d]).key,
            fewer[d].models,
            plan,
        ) is None by {
            assert(fewer[d] == daily[d]);
        }
        lemma_no_plan_fault(fewer, plan);
        assert(daily.last() == daily[daily.len() - 1]);
    }
}

/// The turns that a refresh writes under a daily total never hold more tokens
/// than it. Every turn has a request id of its own.
pub proof fn law_planned_turns_fit(sources: Seq<CindyUsageSnapshot>, d: int, m: int, app: Seq<char>)
    requires
        cindy_assign::distinct_ids(all_turns(sources)),
        0 <= d < cindy_ledger::daily_table(sources, app).len(),
        0 <= m < cindy_ledger::daily_table(sources, app)[d].models.len(),
    ensures
        cindy_settle::covered(
            cindy_plan::cindy_plan(sources, app),
            cindy_ledger::daily_table(sources, app)[d].key,
            cindy_ledger::daily_table(sources, app)[d].models[m].model,
        ).held().within(cindy_ledger::daily_table(sources, app)[d].models[m].tokens),
{
    let daily = cindy_ledger::daily_table(sources, app);
    let groups = cindy_ledger::turn_table(sources, app);
    let plan = cindy_plan::cindy_plan(sources, app);
    let models = daily[d].models;
    lemma_daily_table(sources, app);
    lemma_turn_table(sources, app);
    assert(groups.take(groups.len() as int) =~= groups);
    assert(sound_models(models));
    lemma_plan_covers(daily, groups, groups.len() as int, d, m, app);
    let given = cindy_settle::covered(plan, daily[d].key, models[m].model);
    if given != Tokens::none() {
        let g = choose|g: int|
            0 <= g < groups.len() && (#[trigger] groups[g]).key == daily[d].key
                && cindy_plan::group_picks(daily, groups[g]) is Some && given
                == cindy_assign::share(
                groups[g].turns,
                cindy_assign::definite(cindy_plan::group_picks(daily, groups[g])->0),
                Some(m),
            );
        cindy_ledger::lemma_daily_from(daily, daily[d].key, 0);
        assert(cindy_ledger::daily_from(daily, daily[d].key, 0) == Some(d));
        cindy_assign::law_assigned_turns_fit(models, groups[g].turns, m);
    } else {
        assert(Tokens::none().within(models[m].tokens));
    }
}

/// Whether a planned turn counts against one of the daily totals.
pub open spec fn has_total(daily: Seq<DailyGroup>, turn: PlannedTurn) -> bool {
    exists|d: int, m: int|
        0 <= d < daily.len() && daily[d].key == turn.key && 0 <= m < daily[d].models.len() && (
        #[trigger] daily[d].models[m]).model == turn.record.model
}

proof fn lemma_group_has_totals(
    daily: Seq<DailyGroup>,
    pairs: Seq<(Seq<char>, Seq<char>)>,
    group: TurnGroup,
    n: int,
    i: int,
    app: Seq<char>,
)
    requires
        0 <= n <= group.turns.len(),
        forall|k: int|
            0 <= k < group.turns.len() ==> cindy_plan::model_for(
                pairs,
                (#[trigger] group.turns[k]).request_id@,
            ) == own_model(daily, group, k),
        0 <= i < cindy_plan::group_plan(pairs, group.key, group.turns.take(n), app).len(),
    ensures
        has_total(
            daily,
            cindy_plan::group_plan(pairs, group.key, group.turns.take(n), app)[i],
        ),
    decreases n,
{
    let turns = group.turns.take(n);
    if n > 0 {
        assert(turns.drop_last() =~= group.turns.take(n - 1));
        assert(turns.last() == group.turns[n - 1]);
        let rest = cindy_plan::group_plan(pairs, group.key, group.turns.take(n - 1), app);
        if i < rest.len() {
            lemma_group_has_totals(daily, pairs, group, n - 1, i, app);
        } else {
            let d = cindy_ledger::daily_from(daily, group.key, 0)->0;
            let picks = cindy_plan::group_picks(daily, group)->0;
            cindy_ledger::lemma_daily_from(daily, group.key, 0);
            cindy_assign::law_assigned_models_exist(daily[d].models, group.turns);
            let m = picks[n - 1];
            assert(0 <= m < daily[d].models.len());
            let turn = cindy_plan::group_plan(pairs, group.key, turns, app)[i];
            assert(daily[d].models[m].model == turn.record.model);
        }
    }
}

proof fn lemma_plan_has_totals(
    daily: Seq<DailyGroup>,
    groups: Seq<TurnGroup>,
    n: int,
    i: int,
    app: Seq<char>,
)
    requires
        ids_apart(groups),
        0 <= n <= groups.len(),
        0 <= i < cindy_plan::full_plan(
            cindy_plan::accepted(daily, groups),
            groups.take(n),
            app,
        ).len(),
    ensures
        has_total(
            daily,
            cindy_plan::full_plan(cindy_plan::accepted(daily, groups), groups.take(n), app)[i],
        ),
    decreases n,
{
    let pairs = cindy_plan::accepted(daily, groups);
    if n > 0 {
        let group = groups[n - 1];
        assert(groups.take(n).drop_last() =~= groups.take(n - 1));
        assert(groups.take(n).last() == group);
        let rest = cindy_plan::full_plan(pairs, groups.take(n - 1), app);
        if i < rest.len() {
            lemma_plan_has_totals(daily, groups, n - 1, i, app);
        } else {
            assert forall|k: int| 0 <= k < group.turns.len() implies cindy_plan::model_for(
                pairs,
                (#[trigger] group.turns[k]).request_id@,
            ) == own_model(daily, group, k) by {
                assert(in_groups(groups, n - 1, k));
                lemma_accepted(daily, groups, groups.len() as int, n - 1, k);
                assert(groups.take(groups.len() as int) =~= groups);
                assert(id_at(groups, n - 1, k) == group.turns[k].request_id@);
            }
            assert(group.turns.take(group.turns.len() as int) =~= group.turns);
            lemma_group_has_totals(
                daily,
                pairs,
                group,
                group.turns.len() as int,
                i - rest.len(),
                app,
            );
        }
    }
}

/// Every turn that a refresh writes counts against a daily total: turns that
/// match none are left out. Every turn has a request id of its own.
pub proof fn law_planned_turns_have_totals(
    sources: Seq<CindyUsageSnapshot>,
    i: int,
    app: Seq<char>,
)
    requires
        cindy_assign::distinct_ids(all_turns(sources)),
        0 <= i < cindy_plan::cindy_plan(sources, app).len(),
    ensures
        has_total(
            cindy_ledger::daily_table(sources, app),
            cindy_plan::cindy_plan(sources, app)[i],
        ),
{
    let groups = cindy_ledger::turn_table(sources, app);
    lemma_turn_table(sources, app);
    assert(groups.take(groups.len() as int) =~= groups);
    lemma_plan_has_totals(
        cindy_ledger::daily_table(sources, app),
        groups,
        groups.len() as int,
        i,
        app,
    );
}

/// A settlement of what a refresh writes succeeds. Every turn has a request
/// id of its own.
pub proof fn law_plan_never_exceeds_daily(sources: Seq<CindyUsageSnapshot>, app: Seq<char>)
    requires
        cindy_assign::distinct_ids(all_turns(sources)),
    ensures
        cindy_settle::plan_fault(
            cindy_ledger::daily_table(sources, app),
            cindy_plan::cindy_plan(sources, app),
        ) is None,
{
    let daily = cindy_ledger::daily_table(sources, app);
    let plan = cindy_plan::cindy_plan(sources, app);
    assert forall|d: int| 0 <= d < daily.len() implies cindy_settle::group_fault(
        (#[trigger] daily[d]).key,
        daily[d].models,
        plan,
    ) is None by {
        let models = daily[d].models;
        assert forall|m: int| 0 <= m < models.len() implies cindy_settle::covered(
            plan,
            daily[d].key,
            (#[trigger] models[m]).model,
        ).held().within(models[m].tokens) by {
            law_planned_turns_fit(sources, d, m, app);
        }
        lemma_no_group_fault(daily[d].key, models, plan);
    }
    lemma_no_plan_fault(daily, plan);
}

/// What is left of a daily total and what the written turns cover of it make
/// the daily total.
pub proof fn law_residual_completes_daily(
    key: UsageKey,
    total: SourceTotal,
    plan: Seq<PlannedTurn>,
    outcomes: Seq<DesktopUsageInsertOutcome>,
)
    ensures
        cindy_settle::residual(key, total, plan, outcomes).tokens.plus(
            cindy_settle::covered(plan, key, total.model).held(),
        ) == total.tokens,
{
}

/// Each daily total leaves one residual.
pub proof fn law_one_residual_per_daily_total(
    daily: Seq<DailyGroup>,
    plan: Seq<PlannedTurn>,
    outcomes: Seq<DesktopUsageInsertOutcome>,
    d: int,
    m: int,
)
    requires
        0 <= d < daily.len(),
        0 <= m < daily[d].models.len(),
    ensures
        cindy_settle::all_residuals(daily, plan, outcomes).contains(
            cindy_settle::residual(daily[d].key, daily[d].models[m], plan, outcomes),
        ),
    decreases daily.len(),
{
    let fewer = cindy_settle::all_residuals(daily.drop_last(), plan, outcomes);
    let last = cindy_settle::group_residuals(
        daily.last().key,
        daily.last().models,
        plan,
        outcomes,
    );
    let wanted = cindy_settle::residual(daily[d].key, daily[d].models[m], plan, outcomes);
    if d == daily.len() - 1 {
        assert(last[m] == wanted);
        assert((fewer + last)[fewer.len() + m] == wanted);
    } else {
        assert(daily.drop_last()[d] == daily[d]);
        law_one_residual_per_daily_total(daily.drop_last(), plan, outcomes, d, m);
        let k = choose|k: int| 0 <= k < fewer.len() && fewer[k] == wanted;
        assert((fewer + last)[k] == wanted);
    }
}

/// A turn of an account.
pub open spec fn turn_at(sources: Seq<CindyUsageSnapshot>, s: int, t: int) -> CindyTurnUsage {
    sources[s].turns@[t]
}

/// There is such a turn.
pub open spec fn has_turn(sources: Seq<CindyUsageSnapshot>, s: int, t: int) -> bool {
    0 <= s < sources.len() && 0 <= t < sources[s].turns@.len()
}

/// A text with something in it that is no white space.
pub open spec fn says_something(s: Seq<char>) -> bool {
    exists|k: int| 0 <= k < s.len() && !text::white_space(#[trigger] s[k])
}

/// The application that logs the calls of an agent too, where there is one:
/// Codex and Pi log those of their agents, and the application `app` those of
/// its own, which Cindy knows under two names.
pub open spec fn logged_by(agent_kind: Seq<char>, logger: Seq<char>, app: Seq<char>) -> bool {
    ||| agent_kind == "codex"@ && logger == "codex"@
    ||| agent_kind == "pi"@ && logger == "pi"@
    ||| agent_kind == "cc"@ && logger == app
    ||| agent_kind == app + "-code"@ && logger == app
}

/// The record of a turn names the application that logs its calls too, and the
/// session under which it does; where there is no such application or no
/// session, it names none.
pub proof fn law_turn_names_its_logger(
    turn: CindyTurnUsage,
    model: Seq<char>,
    app: Seq<char>,
    logger: Seq<char>,
    session: String,
)
    ensures
        turn.sdk_session_id == Some(session) && says_something(session@) && logged_by(
            turn.agent_kind@,
            logger,
            app,
        ) ==> cindy_plan::turn_record(turn, model, app).upstream == Some((logger, session@)),
        cindy_plan::turn_record(turn, model, app).upstream matches Some(upstream) ==> {
            &&& turn.sdk_session_id matches Some(own) && own@ == upstream.1 && says_something(own@)
            &&& logged_by(turn.agent_kind@, upstream.0, app)
        },
{
    cindy::law_names_of_agents(turn.agent_kind@, app);
    if let Some(own) = turn.sdk_session_id {
        text::law_blank(own@);
    }
}

/// The record of a turn is of that turn: it has its request id, its session,
/// its time, its duration and its tokens, and the model that was found for it.
/// It is a success of Cindy's and bears no cost, which stays with the day.
pub proof fn law_turn_record_is_of_the_turn(
    turn: CindyTurnUsage,
    model: Seq<char>,
    app: Seq<char>,
)
    ensures
        ({
            let record = cindy_plan::turn_record(turn, model, app);
            &&& record.request_id == turn.request_id@
            &&& record.session_id == Some(turn.session_id@)
            &&& record.created_at == turn.created_at
            &&& record.duration_ms == Some(turn.duration_ms)
            &&& record.input_tokens == turn.input_tokens
            &&& record.output_tokens == turn.output_tokens
            &&& record.cache_read_tokens == turn.cache_read_tokens
            &&& record.cache_creation_tokens == turn.cache_create_tokens
            &&& record.model == model
            &&& record.app_type == "cindy"@
            &&& record.data_source == "cindy_turn"@
            &&& record.total_cost_usd == Some(0u64)
            &&& record.status_code == 200
            &&& record.error_message is None
            &&& record.latency_ms == 0
            &&& record.first_token_ms is None
            &&& turn.agent_kind@ == "codex"@ ==> record.provider_id == "_cindy_codex"@
            &&& turn.agent_kind@ == "pi"@ ==> record.provider_id == "_cindy_pi"@
            &&& turn.agent_kind@ == "cc"@ || turn.agent_kind@ == app + "-code"@
                ==> record.provider_id == "_cindy_"@ + app + "_code"@
        }),
{
    cindy::law_names_of_agents(turn.agent_kind@, app);
}

proof fn lemma_group_origin(
    pairs: Seq<(Seq<char>, Seq<char>)>,
    key: UsageKey,
    turns: Seq<CindyTurnUsage>,
    app: Seq<char>,
    i: int,
) -> (k: int)
    requires
        0 <= i < cindy_plan::group_plan(pairs, key, turns, app).len(),
    ensures
        0 <= k < turns.len(),
        ({
            let planned = cindy_plan::group_plan(pairs, key, turns, app)[i];
            &&& planned.key == key
            &&& planned.record == cindy_plan::turn_record(turns[k], planned.record.model, app)
        }),
    decreases turns.len(),
{
    let rest = cindy_plan::group_plan(pairs, key, turns.drop_last(), app);
    if i < rest.len() {
        lemma_group_origin(pairs, key, turns.drop_last(), app, i)
    } else {
        turns.len() - 1
    }
}

proof fn lemma_plan_origin(
    pairs: Seq<(Seq<char>, Seq<char>)>,
    groups: Seq<TurnGroup>,
    app: Seq<char>,
    i: int,
) -> (r: (int, int))
    requires
        0 <= i < cindy_plan::full_plan(pairs, groups, app).len(),
    ensures
        in_groups(groups, r.0, r.1),
        ({
            let planned = cindy_plan::full_plan(pairs, groups, app)[i];
            &&& planned.key == groups[r.0].key
            &&& planned.record == cindy_plan::turn_record(
                groups[r.0].turns[r.1],
                planned.record.model,
                app,
            )
        }),
    decreases groups.len(),
{
    let fewer = groups.drop_last();
    let rest = cindy_plan::full_plan(pairs, fewer, app);
    if i < rest.len() {
        let r = lemma_plan_origin(pairs, fewer, app, i);
        assert(fewer[r.0] == groups[r.0]);
        r
    } else {
        let last = groups.last();
        let k = lemma_group_origin(pairs, last.key, last.turns, app, i - rest.len());
        (groups.len() - 1, k)
    }
}

/// Each turn of the groups is one of `turns` of that account, or was there
/// before, under the key that it has.
proof fn lemma_turns_origin(
    groups: Seq<TurnGroup>,
    account: Seq<char>,
    turns: Seq<CindyTurnUsage>,
    app: Seq<char>,
    g: int,
    i: int,
)
    requires
        in_groups(cindy_ledger::with_turns(groups, account, turns, app), g, i),
    ensures
        ({
            let after = cindy_ledger::with_turns(groups, account, turns, app);
            let turn = after[g].turns[i];
            ||| exists|t: int|
                0 <= t < turns.len() && #[trigger] turns[t] == turn && after[g].key
                    == cindy_ledger::turn_key(account, turn, app)
            ||| in_groups(groups, g, i) && groups[g].turns[i] == turn && groups[g].key
                == after[g].key
        }),
    decreases turns.len(),
{
    if turns.len() > 0 {
        let fewer = turns.drop_last();
        let before = cindy_ledger::with_turns(groups, account, fewer, app);
        let after = cindy_ledger::with_turns(groups, account, turns, app);
        let key = cindy_ledger::turn_key(account, turns.last(), app);
        lemma_group_from(before, key, 0);
        if in_groups(before, g, i) && after[g].turns[i] == before[g].turns[i] && after[g].key
            == before[g].key {
            lemma_turns_origin(groups, account, fewer, app, g, i);
            let turn = after[g].turns[i];
            if exists|t: int|
                0 <= t < fewer.len() && #[trigger] fewer[t] == turn && before[g].key
                    == cindy_ledger::turn_key(account, turn, app) {
                let t = choose|t: int|
                    0 <= t < fewer.len() && #[trigger] fewer[t] == turn && before[g].key
                        == cindy_ledger::turn_key(account, turn, app);
                assert(turns[t] == turn);
            }
        } else {
            assert(turns[turns.len() - 1] == after[g].turns[i]);
        }
    }
}

proof fn lemma_table_origin(sources: Seq<CindyUsageSnapshot>, app: Seq<char>, g: int, i: int) -> (r: (
    int,
    int,
))
    requires
        in_groups(cindy_ledger::turn_table(sources, app), g, i),
    ensures
        has_turn(sources, r.0, r.1),
        ({
            let group = cindy_ledger::turn_table(sources, app)[g];
            &&& turn_at(sources, r.0, r.1) == group.turns[i]
            &&& group.key == cindy_ledger::turn_key(
                sources[r.0].account_id@,
                group.turns[i],
                app,
            )
        }),
    decreases sources.len(),
{
    let fewer = sources.drop_last();
    let before = cindy_ledger::turn_table(fewer, app);
    let group = cindy_ledger::turn_table(sources, app)[g];
    let last = sources.last();
    lemma_turns_origin(before, last.account_id@, last.turns@, app, g, i);
    let turn = group.turns[i];
    if exists|t: int|
        0 <= t < last.turns@.len() && #[trigger] last.turns@[t] == turn && group.key
            == cindy_ledger::turn_key(last.account_id@, turn, app) {
        let t = choose|t: int|
            0 <= t < last.turns@.len() && #[trigger] last.turns@[t] == turn && group.key
                == cindy_ledger::turn_key(last.account_id@, turn, app);
        (sources.len() - 1, t)
    } else {
        let r = lemma_table_origin(fewer, app, g, i);
        assert(fewer[r.0] == sources[r.0]);
        r
    }
}

/// What a planned turn has of a turn of an account: all that is counted, its
/// account, its day and its model's name, and, where another application logs
/// the calls of its agent, that application and the session there.
pub open spec fn is_of_turn(planned: PlannedTurn, account: Seq<char>, turn: CindyTurnUsage, app: Seq<char>) -> bool {
    &&& planned.key.account == account
    &&& planned.key.day == turn.day@
    &&& planned.key.model == turn.canonical_model@
    &&& planned.key.agent == if turn.agent_kind@ == "cc"@ {
        app + "-code"@
    } else {
        turn.agent_kind@
    }
    &&& planned.record.request_id == turn.request_id@
    &&& planned.record.session_id == Some(turn.session_id@)
    &&& planned.record.created_at == turn.created_at
    &&& planned.record.duration_ms == Some(turn.duration_ms)
    &&& planned.record.input_tokens == turn.input_tokens
    &&& planned.record.output_tokens == turn.output_tokens
    &&& planned.record.cache_read_tokens == turn.cache_read_tokens
    &&& planned.record.cache_creation_tokens == turn.cache_create_tokens
    &&& forall|logger: Seq<char>|
        #[trigger] logged_by(turn.agent_kind@, logger, app) ==> match turn.sdk_session_id {
            Some(session) if says_something(session@) => planned.record.upstream == Some(
                (logger, session@),
            ),
            _ => planned.record.upstream is None,
        }
}

/// Every turn that a refresh plans to write is a turn of one of the accounts,
/// with all its counts. Where another application logs the calls of its agent
/// too and the turn says under which session, the record names both.
pub proof fn law_planned_turns_are_turns(
    sources: Seq<CindyUsageSnapshot>,
    i: int,
    app: Seq<char>,
)
    requires
        0 <= i < cindy_plan::cindy_plan(sources, app).len(),
    ensures
        exists|s: int, t: int|
            has_turn(sources, s, t) && is_of_turn(
                cindy_plan::cindy_plan(sources, app)[i],
                sources[s].account_id@,
                #[trigger] turn_at(sources, s, t),
                app,
            ),
{
    let groups = cindy_ledger::turn_table(sources, app);
    let pairs = cindy_plan::accepted(cindy_ledger::daily_table(sources, app), groups);
    let planned = cindy_plan::cindy_plan(sources, app)[i];
    let place = lemma_plan_origin(pairs, groups, app, i);
    let (s, t) = lemma_table_origin(sources, app, place.0, place.1);
    let turn = turn_at(sources, s, t);
    cindy::law_names_of_agents(turn.agent_kind@, app);
    law_turn_record_is_of_the_turn(turn, planned.record.model, app);
    assert forall|logger: Seq<char>| #[trigger] logged_by(turn.agent_kind@, logger, app) implies match turn.sdk_session_id {
        Some(session) if says_something(session@) => planned.record.upstream == Some(
            (logger, session@),
        ),
        _ => planned.record.upstream is None,
    } by {
        if let Some(session) = turn.sdk_session_id {
            text::law_blank(session@);
            law_turn_names_its_logger(turn, planned.record.model, app, logger, session);
        }
    }
    assert(is_of_turn(planned, sources[s].account_id@, turn, app));
}

/// A call of a turn that another application wrote down too, under the session
/// that the turn names, within two minutes and with the same tokens and model,
/// is found among that application's rows: a mirror of it is written at the
/// cost that is known there, and never a row that counts of its own.
pub proof fn law_logged_turn_counts_once(
    turn: CindyTurnUsage,
    model: Seq<char>,
    app: Seq<char>,
    logger: Seq<char>,
    session: String,
    rows: Seq<UpstreamRow>,
    j: int,
    events: Seq<InsertEvent>,
)
    requires
        turn.sdk_session_id == Some(session),
        says_something(session@),
        logged_by(turn.agent_kind@, logger, app),
        0 <= j < rows.len(),
        rows[j].app_type@ == logger,
        rows[j].session_id@ == session@,
        -120 <= rows[j].created_at - turn.created_at <= 120,
        rows[j].input_tokens == turn.input_tokens,
        rows[j].output_tokens == turn.output_tokens,
        rows[j].cache_read_tokens == turn.cache_read_tokens,
        rows[j].cache_creation_tokens == turn.cache_create_tokens,
        rows[j].model@ == model,
    ensures
        ({
            let record = cindy_plan::turn_record(turn, model, app);
            let cost = insert::duplicate_cost(record, rows);
            let first = insert::stage_after(
                record.app_type,
                InsertStage::FindUpstream,
                InsertEvent::Upstream(cost),
            );
            let last = insert::stage_after_all(record.app_type, first, events);
            &&& cost is Some
            &&& first == InsertStage::WriteMirror { total_cost_usd: cost->0 }
            &&& last != InsertStage::WriteRow
            &&& last != InsertStage::Done(DesktopUsageInsertOutcome::Inserted)
            &&& last != InsertStage::Done(DesktopUsageInsertOutcome::AccountedInSameApp)
        }),
{
    let record = cindy_plan::turn_record(turn, model, app);
    law_turn_names_its_logger(turn, model, app, logger, session);
    assert(insert::repeats(record, rows[j]));
    crate::sync_laws::law_repeated_call_is_found(record, rows, j);
    insert::law_repeated_call_is_not_inserted(
        record.app_type,
        insert::duplicate_cost(record, rows)->0,
        events,
    );
}

proof fn lemma_turn_stays(groups: Seq<TurnGroup>, key: UsageKey, turn: CindyTurnUsage, g: int, i: int)
    requires
        in_groups(groups, g, i),
    ensures
        ({
            let after = cindy_ledger::with_turn(groups, key, turn);
            &&& in_groups(after, g, i)
            &&& after[g].key == groups[g].key
            &&& after[g].turns[i] == groups[g].turns[i]
        }),
{
    lemma_group_from(groups, key, 0);
}

proof fn lemma_turns_stay(
    groups: Seq<TurnGroup>,
    account: Seq<char>,
    turns: Seq<CindyTurnUsage>,
    app: Seq<char>,
    g: int,
    i: int,
)
    requires
        in_groups(groups, g, i),
    ensures
        ({
            let after = cindy_ledger::with_turns(groups, account, turns, app);
            &&& in_groups(after, g, i)
            &&& after[g].key == groups[g].key
            &&& after[g].turns[i] == groups[g].turns[i]
        }),
    decreases turns.len(),
{
    if turns.len() > 0 {
        lemma_turns_stay(groups, account, turns.drop_last(), app, g, i);
        lemma_turn_stays(
            cindy_ledger::with_turns(groups, account, turns.drop_last(), app),
            cindy_ledger::turn_key(account, turns.last(), app),
            turns.last(),
            g,
            i,
        );
    }
}

proof fn lemma_turn_is_gathered(
    groups: Seq<TurnGroup>,
    account: Seq<char>,
    turns: Seq<CindyTurnUsage>,
    app: Seq<char>,
    t: int,
) -> (r: (int, int))
    requires
        0 <= t < turns.len(),
    ensures
        ({
            let after = cindy_ledger::with_turns(groups, account, turns, app);
            &&& in_groups(after, r.0, r.1)
            &&& after[r.0].key == cindy_ledger::turn_key(account, turns[t], app)
            &&& after[r.0].turns[r.1] == turns[t]
        }),
    decreases turns.len(),
{
    let fewer = turns.drop_last();
    let before = cindy_ledger::with_turns(groups, account, fewer, app);
    let key = cindy_ledger::turn_key(account, turns.last(), app);
    lemma_group_from(before, key, 0);
    if t < fewer.len() {
        let r = lemma_turn_is_gathered(groups, account, fewer, app, t);
        lemma_turn_stays(before, key, turns.last(), r.0, r.1);
        r
    } else {
        match cindy_ledger::group_from(before, key, 0) {
            Some(g) => (g, before[g].turns.len() as int),
            None => (before.len() as int, 0),
        }
    }
}

/// Every turn of every account is gathered under its key.
proof fn lemma_all_gathered(sources: Seq<CindyUsageSnapshot>, app: Seq<char>, s: int, t: int) -> (r: (
    int,
    int,
))
    requires
        has_turn(sources, s, t),
    ensures
        ({
            let groups = cindy_ledger::turn_table(sources, app);
            &&& in_groups(groups, r.0, r.1)
            &&& groups[r.0].key == cindy_ledger::turn_key(
                sources[s].account_id@,
                turn_at(sources, s, t),
                app,
            )
            &&& groups[r.0].turns[r.1] == turn_at(sources, s, t)
        }),
    decreases sources.len(),
{
    let fewer = sources.drop_last();
    let last = sources.last();
    let before = cindy_ledger::turn_table(fewer, app);
    if s < fewer.len() {
        assert(fewer[s] == sources[s]);
        let r = lemma_all_gathered(fewer, app, s, t);
        lemma_turns_stay(before, last.account_id@, last.turns@, app, r.0, r.1);
        r
    } else {
        lemma_turn_is_gathered(before, last.account_id@, last.turns@, app, t)
    }
}

proof fn lemma_group_is_planned(
    pairs: Seq<(Seq<char>, Seq<char>)>,
    key: UsageKey,
    turns: Seq<CindyTurnUsage>,
    app: Seq<char>,
    k: int,
    model: Seq<char>,
) -> (i: int)
    requires
        0 <= k < turns.len(),
        cindy_plan::model_for(pairs, turns[k].request_id@) == Some(model),
    ensures
        0 <= i < cindy_plan::group_plan(pairs, key, turns, app).len(),
        cindy_plan::group_plan(pairs, key, turns, app)[i] == (PlannedTurn {
            key,
            record: cindy_plan::turn_record(turns[k], model, app),
        }),
    decreases turns.len(),
{
    let rest = cindy_plan::group_plan(pairs, key, turns.drop_last(), app);
    if k < turns.len() - 1 {
        let i = lemma_group_is_planned(pairs, key, turns.drop_last(), app, k, model);
        assert(cindy_plan::group_plan(pairs, key, turns, app)[i] == rest[i]);
        i
    } else {
        rest.len() as int
    }
}

proof fn lemma_is_planned(
    pairs: Seq<(Seq<char>, Seq<char>)>,
    groups: Seq<TurnGroup>,
    app: Seq<char>,
    g: int,
    k: int,
    model: Seq<char>,
) -> (i: int)
    requires
        in_groups(groups, g, k),
        cindy_plan::model_for(pairs, groups[g].turns[k].request_id@) == Some(model),
    ensures
        0 <= i < cindy_plan::full_plan(pairs, groups, app).len(),
        cindy_plan::full_plan(pairs, groups, app)[i] == (PlannedTurn {
            key: groups[g].key,
            record: cindy_plan::turn_record(groups[g].turns[k], model, app),
        }),
    decreases groups.len(),
{
    let fewer = groups.drop_last();
    let rest = cindy_plan::full_plan(pairs, fewer, app);
    let last = cindy_plan::group_plan(pairs, groups.last().key, groups.last().turns, app);
    if g < fewer.len() {
        assert(fewer[g] == groups[g]);
        let i = lemma_is_planned(pairs, fewer, app, g, k, model);
        assert((rest + last)[i] == rest[i]);
        i
    } else {
        let i = lemma_group_is_planned(
            pairs,
            groups.last().key,
            groups.last().turns,
            app,
            k,
            model,
        );
        assert((rest + last)[rest.len() + i] == last[i]);
        rest.len() + i
    }
}

/// Every turn whose day settles the models of the turns that it is gathered with
/// is planned to be written, under its key and with the model that it was
/// given: none is lost. Every turn has a request id of its own.
pub proof fn law_settled_turns_are_planned(
    sources: Seq<CindyUsageSnapshot>,
    s: int,
    t: int,
    app: Seq<char>,
) -> (r: (int, int))
    requires
        cindy_assign::distinct_ids(all_turns(sources)),
        has_turn(sources, s, t),
    ensures
        ({
            let turn = turn_at(sources, s, t);
            let key = cindy_ledger::turn_key(sources[s].account_id@, turn, app);
            let daily = cindy_ledger::daily_table(sources, app);
            let groups = cindy_ledger::turn_table(sources, app);
            let plan = cindy_plan::cindy_plan(sources, app);
            &&& 0 <= r.0 < groups.len() && 0 <= r.1 < groups[r.0].turns.len()
            &&& groups[r.0].key == key
            &&& groups[r.0].turns[r.1] == turn
            &&& forall|d: int|
                0 <= d < daily.len() && (#[trigger] daily[d]).key == key ==> match cindy_assign::assigned(
                    daily[d].models,
                    groups[r.0].turns,
                ) {
                    Some(picks) => exists|i: int|
                        0 <= i < plan.len() && (#[trigger] plan[i]).key == key
                            && plan[i].record.request_id == turn.request_id@
                            && plan[i].record.model == daily[d].models[picks[r.1]].model,
                    None => true,
                }
        }),
{
    let daily = cindy_ledger::daily_table(sources, app);
    let groups = cindy_ledger::turn_table(sources, app);
    let pairs = cindy_plan::accepted(daily, groups);
    let plan = cindy_plan::cindy_plan(sources, app);
    let turn = turn_at(sources, s, t);
    let key = cindy_ledger::turn_key(sources[s].account_id@, turn, app);
    let r = lemma_all_gathered(sources, app, s, t);
    lemma_turn_table(sources, app);
    lemma_daily_table(sources, app);
    lemma_accepted(daily, groups, groups.len() as int, r.0, r.1);
    assert(groups.take(groups.len() as int) =~= groups);
    assert(id_at(groups, r.0, r.1) == turn.request_id@);
    assert forall|d: int| 0 <= d < daily.len() && (#[trigger] daily[d]).key == key implies match cindy_assign::assigned(
        daily[d].models,
        groups[r.0].turns,
    ) {
        Some(picks) => exists|i: int|
            0 <= i < plan.len() && (#[trigger] plan[i]).key == key && plan[i].record.request_id
                == turn.request_id@ && plan[i].record.model == daily[d].models[picks[r.1]].model,
        None => true,
    } by {
        cindy_ledger::lemma_daily_from(daily, key, 0);
        assert(cindy_ledger::daily_from(daily, key, 0) == Some(d));
        if let Some(picks) = cindy_assign::assigned(daily[d].models, groups[r.0].turns) {
            let model = daily[d].models[picks[r.1]].model;
            assert(own_model(daily, groups[r.0], r.1) == Some(model));
            let i = lemma_is_planned(pairs, groups, app, r.0, r.1, model);
            assert(plan[i].key == key);
        }
    }
    r
}

} // verus!
