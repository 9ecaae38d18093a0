//! The turns that a refresh of Cindy's usage writes.

use vstd::prelude::*;
use crate::cindy;
use crate::cindy::CindyTurnUsage;
use crate::cindy_assign;
use crate::cindy_ledger;
use crate::cindy_ledger::{CindyDailyAggregate, CindyTurnGroup, CindyUsageKey, CindyUsageSnapshot,
    DailyGroup, TurnGroup, UsageKey};
use crate::error::AppError;
use crate::text;
use crate::usage;
use crate::usage::{DesktopUsageRecord, UpstreamDedup, UsageRecord};

verus! {

/// The models of the turns of a group, where the daily totals settle them.
pub open spec fn group_picks(daily: Seq<DailyGroup>, group: TurnGroup) -> Option<Seq<int>> {
    match cindy_ledger::daily_from(daily, group.key, 0) {
        Some(d) => cindy_assign::assigned(daily[d].models, group.turns),
        None => None,
    }
}

/// The request ids of a group's turns, each with its model.
pub open spec fn group_pairs(daily: Seq<DailyGroup>, group: TurnGroup) -> Seq<
    (Seq<char>, Seq<char>),
> {
    match group_picks(daily, group) {
        Some(picks) => {
            let models = daily[cindy_ledger::daily_from(daily, group.key, 0)->0].models;
            Seq::new(
                group.turns.len(),
                |i: int| (group.turns[i].request_id@, models[picks[i]].model),
            )
        },
        None => Seq::empty(),
    }
}

/// The request ids of all groups' turns, each with its model.
pub open spec fn accepted(daily: Seq<DailyGroup>, groups: Seq<TurnGroup>) -> Seq<
    (Seq<char>, Seq<char>),
>
    decreases groups.len(),
{
    if groups.len() == 0 {
        Seq::empty()
    } else {
        accepted(daily, groups.drop_last()) + group_pairs(daily, groups.last())
    }
}

/// The model that was last given to a request id.
pub open spec fn model_for(pairs: Seq<(Seq<char>, Seq<char>)>, id: Seq<char>) -> Option<Seq<char>>
    decreases pairs.len(),
{
    if pairs.len() == 0 {
        None
    } else if pairs.last().0 == id {
        Some(pairs.last().1)
    } else {
        model_for(pairs.drop_last(), id)
    }
}

/// The call that a turn may repeat.
pub open spec fn turn_upstream(
    turn: CindyTurnUsage,
    app: Seq<char>,
) -> Option<(Seq<char>, Seq<char>)> {
    match (text::opt_text(turn.sdk_session_id), cindy::upstream_app(turn.agent_kind@, app)) {
        (Some(session), Some(logger)) => if text::blank(session) {
            None
        } else {
            Some((logger, session))
        },
        _ => None,
    }
}

/// The record of a turn. The cost stays with the daily total, and the
/// duration of the turn is no latency.
pub open spec fn turn_record(
    turn: CindyTurnUsage,
    model: Seq<char>,
    app: Seq<char>,
) -> UsageRecord {
    UsageRecord {
        request_id: turn.request_id@,
        app_type: usage::CINDY_APP_TYPE@,
        data_source: usage::CINDY_DETAIL_DATA_SOURCE@,
        provider_id: cindy::provider_of(turn.agent_kind@, app),
        model,
        session_id: Some(turn.session_id@),
        input_tokens: turn.input_tokens,
        output_tokens: turn.output_tokens,
        cache_read_tokens: turn.cache_read_tokens,
        cache_creation_tokens: turn.cache_create_tokens,
        total_cost_usd: Some(0),
        latency_ms: 0,
        duration_ms: Some(turn.duration_ms),
        first_token_ms: None,
        status_code: 200,
        error_message: None,
        created_at: turn.created_at,
        upstream: turn_upstream(turn, app),
    }
}

/// A turn that is to be written.
#[derive(Debug)]
pub struct CindyPlannedTurn {
    pub key: CindyUsageKey,
    pub record: DesktopUsageRecord,
}

/// A turn that is to be written.
pub struct PlannedTurn {
    pub key: UsageKey,
    pub record: UsageRecord,
}

impl View for CindyPlannedTurn {
    type V = PlannedTurn;

    open spec fn view(&self) -> PlannedTurn {
        PlannedTurn { key: self.key@, record: self.record@ }
    }
}

/// What planned turns say.
pub open spec fn planned_turns(turns: Seq<CindyPlannedTurn>) -> Seq<PlannedTurn> {
    turns.map_values(|t: CindyPlannedTurn| t@)
}

/// The turns of a group that were given a model.
pub open spec fn group_plan(
    pairs: Seq<(Seq<char>, Seq<char>)>,
    key: UsageKey,
    turns: Seq<CindyTurnUsage>,
    app: Seq<char>,
) -> Seq<PlannedTurn>
    decreases turns.len(),
{
    if turns.len() == 0 {
        Seq::empty()
    } else {
        let rest = group_plan(pairs, key, turns.drop_last(), app);
        match model_for(pairs, turns.last().request_id@) {
            Some(model) => rest.push(
                PlannedTurn { key, record: turn_record(turns.last(), model, app) },
            ),
            None => rest,
        }
    }
}

/// The turns of all groups that were given a model.
pub open spec fn full_plan(
    pairs: Seq<(Seq<char>, Seq<char>)>,
    groups: Seq<TurnGroup>,
    app: Seq<char>,
) -> Seq<
    PlannedTurn,
>
    decreases groups.len(),
{
    if groups.len() == 0 {
        Seq::empty()
    } else {
        full_plan(pairs, groups.drop_last(), app) + group_plan(
            pairs,
            groups.last().key,
            groups.last().turns,
            app,
        )
    }
}

/// The turns that a refresh from these databases writes.
pub open spec fn cindy_plan(sources: Seq<CindyUsageSnapshot>, app: Seq<char>) -> Seq<PlannedTurn> {
    let groups = cindy_ledger::turn_table(sources, app);
    full_plan(accepted(cindy_ledger::daily_table(sources, app), groups), groups, app)
}

/// What a refresh of Cindy's usage is to write: the turns that were given a
/// daily model, and the daily totals that they count against.
#[derive(Debug)]
pub struct CindyPlan {
    pub daily: Vec<CindyDailyAggregate>,
    pub turns: Vec<CindyPlannedTurn>,
}

/// The view of pairs.
pub open spec fn pair_texts(pairs: Seq<(String, String)>) -> Seq<(Seq<char>, Seq<char>)> {
    pairs.map_values(|p: (String, String)| (p.0@, p.1@))
}

/// Adds the request ids of a group's turns, each with its model.
fn accept_group(
    daily: &Vec<CindyDailyAggregate>,
    group: &CindyTurnGroup,
    pairs: &mut Vec<(String, String)>,
)
    ensures
        pair_texts(final(pairs)@) == pair_texts(old(pairs)@) + group_pairs(
            cindy_ledger::groups_of(daily@),
            group@,
        ),
{
    let ghost table = cindy_ledger::groups_of(daily@);
    let ghost before = pair_texts(pairs@);
    let ghost wanted = group_pairs(table, group@);
    let d: usize = match cindy_ledger::find_daily(daily, &group.key) {
        Some(d) => d,
        None => {
            assert(before + wanted =~= before);
            return ;
        },
    };
    assert(table[d as int] == daily@[d as int]@);
    let models = &daily[d].source_models;
    let picks = match cindy_assign::assign_cindy_turn_models(models, &group.turns) {
        Some(picks) => picks,
        None => {
            assert(before + wanted =~= before);
            return ;
        },
    };
    proof {
        cindy_assign::law_assigned_models_exist(table[d as int].models, group.turns@);
    }
    let mut i: usize = 0;
    assert(before + wanted.take(0) =~= before);
    while i < group.turns.len()
        invariant
            i <= group.turns@.len(),
            group.turns@.len() == picks@.len(),
            wanted.len() == picks@.len(),
            forall|k: int| 0 <= k < picks@.len() ==> #[trigger] picks@[k] < models@.len(),
            forall|k: int|
                0 <= k < picks@.len() ==> #[trigger] wanted[k] == (
                    group.turns@[k].request_id@,
                    models@[picks@[k] as int].model@,
                ),
            pair_texts(pairs@) == before + wanted.take(i as int),
        decreases group.turns@.len() - i,
    {
        let ghost last = pairs@;
        pairs.push(
            (
                group.turns[i].request_id.as_str().to_owned(),
                models[picks[i]].model.as_str().to_owned(),
            ),
        );
        proof {
            assert(pair_texts(pairs@) =~= pair_texts(last).push(wanted[i as int]));
            assert(before + wanted.take(i + 1) =~= (before + wanted.take(i as int)).push(
                wanted[i as int],
            ));
        }
        i += 1;
    }
    assert(wanted.take(wanted.len() as int) =~= wanted);
}

/// The request ids of all groups' turns, each with its model.
fn accept_groups(daily: &Vec<CindyDailyAggregate>, groups: &Vec<CindyTurnGroup>) -> (r: Vec<
    (String, String),
>)
    ensures
        pair_texts(r@) == accepted(
            cindy_ledger::groups_of(daily@),
            cindy_ledger::turn_groups(groups@),
        ),
{
    let ghost table = cindy_ledger::groups_of(daily@);
    let ghost all = cindy_ledger::turn_groups(groups@);
    let mut pairs: Vec<(String, String)> = Vec::new();
    let mut g: usize = 0;
    assert(pair_texts(pairs@) =~= accepted(table, all.take(0)));
    while g < groups.len()
        invariant
            g <= groups@.len(),
            table == cindy_ledger::groups_of(daily@),
            all == cindy_ledger::turn_groups(groups@),
            pair_texts(pairs@) == accepted(table, all.take(g as int)),
        decreases groups@.len() - g,
    {
        assert(all.take(g + 1).drop_last() =~= all.take(g as int));
        accept_group(daily, &groups[g], &mut pairs);
        g += 1;
    }
    assert(all.take(groups@.len() as int) =~= all);
    pairs
}

/// The model that was last given to a request id.
fn find_pair(pairs: &Vec<(String, String)>, id: &str) -> (r: Option<String>)
    ensures
        text::opt_text(r) == model_for(pair_texts(pairs@), id@),
{
    let ghost all = pair_texts(pairs@);
    let mut i: usize = pairs.len();
    assert(all.take(all.len() as int) =~= all);
    while i > 0
        invariant
            i <= pairs@.len(),
            all == pair_texts(pairs@),
            model_for(all, id@) == model_for(all.take(i as int), id@),
        decreases i,
    {
        assert(all.take(i as int).drop_last() =~= all.take(i - 1));
        assert(all.take(i as int).last() == all[i - 1]);
        if text::same_text(pairs[i - 1].0.as_str(), id) {
            return Some(pairs[i - 1].1.as_str().to_owned());
        }
        i -= 1;
    }
    None
}

/// The call that a turn may repeat.
fn turn_dedup(turn: &CindyTurnUsage, app: &str) -> (r: Option<UpstreamDedup>)
    ensures
        usage::upstream_of(r) == turn_upstream(*turn, app@),
{
    let session = match &turn.sdk_session_id {
        Some(session) => session.as_str(),
        None => return None,
    };
    if text::is_blank(session) {
        return None;
    }
    match cindy::cindy_upstream_app(turn.agent_kind.as_str(), app) {
        Some(app_type) => Some(UpstreamDedup { app_type, session_id: session.to_owned() }),
        None => None,
    }
}

/// The record of a turn.
pub fn cindy_turn_record(turn: &CindyTurnUsage, model: String, app: &str) -> (r: DesktopUsageRecord)
    ensures
        r@ == turn_record(*turn, model@, app@),
{
    DesktopUsageRecord {
        request_id: turn.request_id.as_str().to_owned(),
        app_type: usage::CINDY_APP_TYPE.to_owned(),
        data_source: usage::CINDY_DETAIL_DATA_SOURCE.to_owned(),
        provider_id: cindy::cindy_provider_id(turn.agent_kind.as_str(), app),
        model,
        session_id: Some(turn.session_id.as_str().to_owned()),
        input_tokens: turn.input_tokens,
        output_tokens: turn.output_tokens,
        cache_read_tokens: turn.cache_read_tokens,
        cache_creation_tokens: turn.cache_create_tokens,
        total_cost_usd: Some(0),
        latency_ms: 0,
        duration_ms: Some(turn.duration_ms),
        first_token_ms: None,
        status_code: 200,
        error_message: None,
        created_at: turn.created_at,
        upstream_dedup: turn_dedup(turn, app),
    }
}

/// Adds the turns of a group that were given a model.
fn plan_group(
    pairs: &Vec<(String, String)>,
    group: &CindyTurnGroup,
    plan: &mut Vec<CindyPlannedTurn>,
    app: &str,
)
    ensures
        planned_turns(final(plan)@) == planned_turns(old(plan)@) + group_plan(
            pair_texts(pairs@),
            group.key@,
            group.turns@,
            app@,
        ),
{
    let ghost all = pair_texts(pairs@);
    let ghost before = planned_turns(plan@);
    let mut i: usize = 0;
    assert(before + group_plan(all, group.key@, group.turns@.take(0), app@) =~= before);
    while i < group.turns.len()
        invariant
            i <= group.turns@.len(),
            all == pair_texts(pairs@),
            planned_turns(plan@) == before + group_plan(
                all,
                group.key@,
                group.turns@.take(i as int),
                app@,
            ),
        decreases group.turns@.len() - i,
    {
        let ghost last = planned_turns(plan@);
        let turn = &group.turns[i];
        assert(group.turns@.take(i + 1).drop_last() =~= group.turns@.take(i as int));
        if let Some(model) = find_pair(pairs, turn.request_id.as_str()) {
            let entry = CindyPlannedTurn {
                key: group.key.copy(),
                record: cindy_turn_record(turn, model, app),
            };
            let ghost written = entry@;
            plan.push(entry);
            assert(planned_turns(plan@) =~= last.push(written));
            assert(before + group_plan(all, group.key@, group.turns@.take(i + 1), app@) =~= last.push(
                written,
            ));
        }
        i += 1;
    }
    assert(group.turns@.take(group.turns@.len() as int) =~= group.turns@);
}

/// What a refresh of Cindy's usage from these databases is to write. A date
/// that is none fails the whole refresh.
pub fn plan_cindy_usage(
    sources: Vec<CindyUsageSnapshot>,
    app: &str,
) -> (r: Result<CindyPlan, AppError>)
    ensures
        match r {
            Ok(plan) => {
                &&& cindy_ledger::sources_fault(sources@) is None
                &&& cindy_ledger::groups_of(plan.daily@) == cindy_ledger::daily_table(sources@, app@)
                &&& planned_turns(plan.turns@) == cindy_plan(sources@, app@)
            },
            Err(error) => cindy_ledger::sources_fault(sources@) == Some(error@),
        },
{
    let daily = match cindy_ledger::collect_cindy_days(&sources, app) {
        Ok(daily) => daily,
        Err(error) => return Err(error),
    };
    let ghost table = cindy_ledger::daily_table(sources@, app@);
    let groups = cindy_ledger::collect_cindy_turns(sources, app);
    let ghost all = cindy_ledger::turn_groups(groups@);
    let pairs = accept_groups(&daily, &groups);
    let mut turns: Vec<CindyPlannedTurn> = Vec::new();
    let mut g: usize = 0;
    assert(planned_turns(turns@) =~= full_plan(pair_texts(pairs@), all.take(0), app@));
    while g < groups.len()
        invariant
            g <= groups@.len(),
            all == cindy_ledger::turn_groups(groups@),
            planned_turns(turns@) == full_plan(pair_texts(pairs@), all.take(g as int), app@),
        decreases groups@.len() - g,
    {
        assert(all.take(g + 1).drop_last() =~= all.take(g as int));
        plan_group(&pairs, &groups[g], &mut turns, app);
        g += 1;
    }
    assert(all.take(groups@.len() as int) =~= all);
    Ok(CindyPlan { daily, turns })
}

} // verus!
