//! What is left of Cindy's daily totals once the planned turns are written.

use vstd::prelude::*;
use crate::cindy;
use crate::cindy::{CindyCost, CindyTokenBuckets, Tokens};
use crate::cindy_assign::SourceTotal;
use crate::cindy_ledger;
use crate::cindy_ledger::{CindyDailyAggregate, CindyUsageKey, DailyGroup, UsageKey};
use crate::cindy_plan;
use crate::cindy_plan::{CindyPlan, CindyPlannedTurn, PlannedTurn};
use crate::error::{AppError, Fault};
use crate::numbers;
use crate::text;
use crate::usage;
use crate::usage::{DesktopUsageInsertOutcome, UsageRecord};

verus! {

/// The tokens of a record.
pub open spec fn record_tokens(record: UsageRecord) -> Tokens {
    Tokens {
        input: record.input_tokens as int,
        output: record.output_tokens as int,
        cache_read: record.cache_read_tokens as int,
        cache_create: record.cache_creation_tokens as int,
    }
}

/// The tokens of the planned turns that count against a daily total.
pub open spec fn covered(plan: Seq<PlannedTurn>, key: UsageKey, model: Seq<char>) -> Tokens
    decreases plan.len(),
{
    if plan.len() == 0 {
        Tokens::none()
    } else {
        let rest = covered(plan.drop_last(), key, model);
        if plan.last().key == key && plan.last().record.model == model {
            rest.plus(record_tokens(plan.last().record))
        } else {
            rest
        }
    }
}

/// The costs that other applications have for the planned turns that count
/// against a daily total, in order.
pub open spec fn upstream_costs(
    plan: Seq<PlannedTurn>,
    outcomes: Seq<DesktopUsageInsertOutcome>,
    key: UsageKey,
    model: Seq<char>,
) -> Seq<u64>
    decreases plan.len(),
{
    if plan.len() == 0 {
        Seq::empty()
    } else {
        let rest = upstream_costs(plan.drop_last(), outcomes.drop_last(), key, model);
        if plan.last().key == key && plan.last().record.model == model {
            match outcomes.last() {
                DesktopUsageInsertOutcome::AccountedInUpstreamApp { total_cost_usd, .. } => rest.push(
                    total_cost_usd,
                ),
                _ => rest,
            }
        } else {
            rest
        }
    }
}

/// A row was written.
pub open spec fn wrote_row(outcome: DesktopUsageInsertOutcome) -> bool {
    match outcome {
        DesktopUsageInsertOutcome::Inserted => true,
        DesktopUsageInsertOutcome::AccountedInSameApp => false,
        DesktopUsageInsertOutcome::AccountedInUpstreamApp { mirror_inserted, .. } => mirror_inserted,
    }
}

/// How many rows were written.
pub open spec fn rows_written(outcomes: Seq<DesktopUsageInsertOutcome>) -> int
    decreases outcomes.len(),
{
    if outcomes.len() == 0 {
        0
    } else {
        rows_written(outcomes.drop_last()) + if wrote_row(outcomes.last()) {
            1int
        } else {
            0
        }
    }
}

/// What is left of a daily total.
#[derive(Debug)]
pub struct CindyResidual {
    pub key: CindyUsageKey,
    pub model: String,
    pub tokens: CindyTokenBuckets,
    /// The costs of the day.
    pub costs: Vec<CindyCost>,
    /// The costs that other applications have already.
    pub upstream_costs: Vec<u64>,
}

/// What is left of a daily total.
pub struct Residual {
    pub key: UsageKey,
    pub model: Seq<char>,
    pub tokens: Tokens,
    pub costs: Seq<CindyCost>,
    pub upstream_costs: Seq<u64>,
}

impl View for CindyResidual {
    type V = Residual;

    open spec fn view(&self) -> Residual {
        Residual {
            key: self.key@,
            model: self.model@,
            tokens: self.tokens@,
            costs: self.costs@,
            upstream_costs: self.upstream_costs@,
        }
    }
}

/// What residuals say.
pub open spec fn residuals_of(items: Seq<CindyResidual>) -> Seq<Residual> {
    items.map_values(|r: CindyResidual| r@)
}

/// What the planned turns leave of a daily total.
pub open spec fn residual(
    key: UsageKey,
    total: SourceTotal,
    plan: Seq<PlannedTurn>,
    outcomes: Seq<DesktopUsageInsertOutcome>,
) -> Residual {
    Residual {
        key,
        model: total.model,
        tokens: total.tokens.minus(covered(plan, key, total.model).held()),
        costs: total.costs,
        upstream_costs: upstream_costs(plan, outcomes, key, total.model),
    }
}

/// What the planned turns leave of the daily totals under one key.
pub open spec fn group_residuals(
    key: UsageKey,
    models: Seq<SourceTotal>,
    plan: Seq<PlannedTurn>,
    outcomes: Seq<DesktopUsageInsertOutcome>,
) -> Seq<Residual> {
    models.map_values(|total: SourceTotal| residual(key, total, plan, outcomes))
}

/// What the planned turns leave of all daily totals.
pub open spec fn all_residuals(
    daily: Seq<DailyGroup>,
    plan: Seq<PlannedTurn>,
    outcomes: Seq<DesktopUsageInsertOutcome>,
) -> Seq<Residual>
    decreases daily.len(),
{
    if daily.len() == 0 {
        Seq::empty()
    } else {
        all_residuals(daily.drop_last(), plan, outcomes) + group_residuals(
            daily.last().key,
            daily.last().models,
            plan,
            outcomes,
        )
    }
}

/// The failure where planned turns hold more tokens than a daily total.
pub open spec fn excess_fault(
    key: UsageKey,
    total: SourceTotal,
    plan: Seq<PlannedTurn>,
) -> Option<Fault> {
    if covered(plan, key, total.model).held().within(total.tokens) {
        None
    } else {
        Some(
            Fault::Database(
                "Cindy 明细补差超过日表: day="@ + key.day + ", agent="@ + key.agent + ", model="@
                    + total.model,
            ),
        )
    }
}

/// The first such failure under one key.
pub open spec fn group_fault(
    key: UsageKey,
    models: Seq<SourceTotal>,
    plan: Seq<PlannedTurn>,
) -> Option<Fault>
    decreases models.len(),
{
    if models.len() == 0 {
        None
    } else {
        match group_fault(key, models.drop_last(), plan) {
            Some(fault) => Some(fault),
            None => excess_fault(key, models.last(), plan),
        }
    }
}

/// The first such failure.
pub open spec fn plan_fault(daily: Seq<DailyGroup>, plan: Seq<PlannedTurn>) -> Option<Fault>
    decreases daily.len(),
{
    if daily.len() == 0 {
        None
    } else {
        match plan_fault(daily.drop_last(), plan) {
            Some(fault) => Some(fault),
            None => group_fault(daily.last().key, daily.last().models, plan),
        }
    }
}

/// Whether a planned turn counts against a daily total.
fn counts_against(turn: &CindyPlannedTurn, key: &CindyUsageKey, model: &str) -> (r: bool)
    ensures
        r == (turn@.key == key@ && turn@.record.model == model@),
{
    turn.key.same(key) && text::same_text(turn.record.model.as_str(), model)
}

proof fn lemma_covered_counts(plan: Seq<PlannedTurn>, key: UsageKey, model: Seq<char>)
    ensures
        Tokens::none().within(covered(plan, key, model)),
    decreases plan.len(),
{
    if plan.len() > 0 {
        lemma_covered_counts(plan.drop_last(), key, model);
    }
}

/// The tokens of the planned turns that count against a daily total.
fn covered_by(turns: &Vec<CindyPlannedTurn>, key: &CindyUsageKey, model: &str) -> (r:
    CindyTokenBuckets)
    ensures
        r@ == covered(cindy_plan::planned_turns(turns@), key@, model@).held(),
        Tokens::none().within(r@),
{
    let ghost plan = cindy_plan::planned_turns(turns@);
    let mut tokens = CindyTokenBuckets::none();
    let mut i: usize = 0;
    while i < turns.len()
        invariant
            i <= turns@.len(),
            plan == cindy_plan::planned_turns(turns@),
            tokens@ == covered(plan.take(i as int), key@, model@).held(),
        decreases turns@.len() - i,
    {
        proof {
            assert(plan.take(i + 1).drop_last() =~= plan.take(i as int));
            lemma_covered_counts(plan.take(i as int), key@, model@);
        }
        if counts_against(&turns[i], key, model) {
            let record = &turns[i].record;
            tokens.add_assign(
                CindyTokenBuckets {
                    input: record.input_tokens as i64,
                    output: record.output_tokens as i64,
                    cache_read: record.cache_read_tokens as i64,
                    cache_create: record.cache_creation_tokens as i64,
                },
            );
        }
        i += 1;
    }
    proof {
        assert(plan.take(turns@.len() as int) =~= plan);
        lemma_covered_counts(plan, key@, model@);
    }
    tokens
}

/// The costs that other applications have for the planned turns that count
/// against a daily total.
fn costs_upstream(
    turns: &Vec<CindyPlannedTurn>,
    outcomes: &Vec<DesktopUsageInsertOutcome>,
    key: &CindyUsageKey,
    model: &str,
) -> (r: Vec<u64>)
    requires
        outcomes@.len() == turns@.len(),
    ensures
        r@ == upstream_costs(cindy_plan::planned_turns(turns@), outcomes@, key@, model@),
{
    let ghost plan = cindy_plan::planned_turns(turns@);
    let mut costs: Vec<u64> = Vec::new();
    let mut i: usize = 0;
    while i < turns.len()
        invariant
            i <= turns@.len(),
            outcomes@.len() == turns@.len(),
            plan == cindy_plan::planned_turns(turns@),
            costs@ == upstream_costs(
                plan.take(i as int),
                outcomes@.take(i as int),
                key@,
                model@,
            ),
        decreases turns@.len() - i,
    {
        assert(plan.take(i + 1).drop_last() =~= plan.take(i as int));
        assert(outcomes@.take(i + 1).drop_last() =~= outcomes@.take(i as int));
        if counts_against(&turns[i], key, model) {
            if let DesktopUsageInsertOutcome::AccountedInUpstreamApp { total_cost_usd, .. } =
                outcomes[i] {
                costs.push(total_cost_usd);
            }
        }
        i += 1;
    }
    assert(plan.take(turns@.len() as int) =~= plan);
    assert(outcomes@.take(turns@.len() as int) =~= outcomes@);
    costs
}

/// What was written of the planned turns, and what they leave.
#[derive(Debug)]
pub struct CindySettlement {
    pub imported: u32,
    pub residuals: Vec<CindyResidual>,
}

/// How many rows were written.
fn count_rows(outcomes: &Vec<DesktopUsageInsertOutcome>) -> (r: u32)
    ensures
        r == numbers::counted(rows_written(outcomes@)),
{
    let mut rows: u32 = 0;
    let mut i: usize = 0;
    while i < outcomes.len()
        invariant
            i <= outcomes@.len(),
            rows == numbers::counted(rows_written(outcomes@.take(i as int))),
        decreases outcomes@.len() - i,
    {
        assert(outcomes@.take(i + 1).drop_last() =~= outcomes@.take(i as int));
        let wrote = match outcomes[i] {
            DesktopUsageInsertOutcome::Inserted => true,
            DesktopUsageInsertOutcome::AccountedInSameApp => false,
            DesktopUsageInsertOutcome::AccountedInUpstreamApp { mirror_inserted, .. } => mirror_inserted,
        };
        if wrote {
            rows = rows.saturating_add(1);
        }
        i += 1;
    }
    assert(outcomes@.take(outcomes@.len() as int) =~= outcomes@);
    rows
}

proof fn lemma_group_fault(
    key: UsageKey,
    models: Seq<SourceTotal>,
    plan: Seq<PlannedTurn>,
    m: int,
)
    requires
        0 <= m < models.len(),
        group_fault(key, models.take(m), plan) is None,
        excess_fault(key, models[m], plan) is Some,
    ensures
        group_fault(key, models, plan) == excess_fault(key, models[m], plan),
    decreases models.len(),
{
    let fewer = models.drop_last();
    if m + 1 == models.len() {
        assert(models.take(m) =~= fewer);
    } else {
        assert(fewer.take(m) =~= models.take(m));
        lemma_group_fault(key, fewer, plan, m);
    }
}

proof fn lemma_plan_fault(daily: Seq<DailyGroup>, plan: Seq<PlannedTurn>, d: int)
    requires
        0 <= d < daily.len(),
        plan_fault(daily.take(d), plan) is None,
        group_fault(daily[d].key, daily[d].models, plan) is Some,
    ensures
        plan_fault(daily, plan) == group_fault(daily[d].key, daily[d].models, plan),
    decreases daily.len(),
{
    let fewer = daily.drop_last();
    if d + 1 == daily.len() {
        assert(daily.take(d) =~= fewer);
    } else {
        assert(fewer.take(d) =~= daily.take(d));
        lemma_plan_fault(fewer, plan, d);
    }
}

/// Adds what the planned turns leave of the daily totals under one key.
fn settle_group(
    group: &CindyDailyAggregate,
    turns: &Vec<CindyPlannedTurn>,
    outcomes: &Vec<DesktopUsageInsertOutcome>,
    residuals: &mut Vec<CindyResidual>,
) -> (r: Result<(), AppError>)
    requires
        outcomes@.len() == turns@.len(),
    ensures
        match r {
            Ok(_) => {
                &&& group_fault(group@.key, group@.models, cindy_plan::planned_turns(turns@)) is None
                &&& residuals_of(final(residuals)@) == residuals_of(old(residuals)@)
                    + group_residuals(
                    group@.key,
                    group@.models,
                    cindy_plan::planned_turns(turns@),
                    outcomes@,
                )
            },
            Err(error) => group_fault(
                group@.key,
                group@.models,
                cindy_plan::planned_turns(turns@),
            ) == Some(error@),
        },
{
    let ghost plan = cindy_plan::planned_turns(turns@);
    let ghost before = residuals_of(residuals@);
    let ghost models = group@.models;
    let ghost wanted = group_residuals(group@.key, models, plan, outcomes@);
    let mut m: usize = 0;
    assert(before + wanted.take(0) =~= before);
    while m < group.source_models.len()
        invariant
            m <= group.source_models@.len(),
            outcomes@.len() == turns@.len(),
            plan == cindy_plan::planned_turns(turns@),
            models == group@.models,
            wanted == group_residuals(group@.key, models, plan, outcomes@),
            group_fault(group@.key, models.take(m as int), plan) is None,
            residuals_of(residuals@) == before + wanted.take(m as int),
        decreases group.source_models@.len() - m,
    {
        let source = &group.source_models[m];
        assert(models[m as int] == source@);
        let tokens = covered_by(turns, &group.key, source.model.as_str());
        if !tokens.fits_within(source.tokens) {
            let head = text::joined3(
                "Cindy 明细补差超过日表: day=",
                group.key.day.as_str(),
                ", agent=",
            );
            let head = text::joined3(head.as_str(), group.key.agent_kind.as_str(), ", model=");
            let error = AppError::Database(text::joined(head.as_str(), source.model.as_str()));
            proof {
                lemma_group_fault(group@.key, models, plan, m as int);
            }
            return Err(error);
        }
        let mut costs: Vec<CindyCost> = Vec::new();
        let mut c: usize = 0;
        while c < source.costs.len()
            invariant
                c <= source.costs@.len(),
                costs@ == source.costs@.take(c as int),
            decreases source.costs@.len() - c,
        {
            costs.push(source.costs[c]);
            assert(costs@ =~= source.costs@.take(c + 1));
            c += 1;
        }
        assert(costs@ =~= source.costs@);
        let entry = CindyResidual {
            key: group.key.copy(),
            model: source.model.as_str().to_owned(),
            tokens: source.tokens.subtract(tokens),
            costs,
            upstream_costs: costs_upstream(turns, outcomes, &group.key, source.model.as_str()),
        };
        let ghost last = residuals_of(residuals@);
        let ghost left = entry@;
        residuals.push(entry);
        proof {
            assert(left == wanted[m as int]);
            assert(residuals_of(residuals@) =~= last.push(left));
            assert(before + wanted.take(m + 1) =~= (before + wanted.take(m as int)).push(left));
            assert(models.take(m + 1).drop_last() =~= models.take(m as int));
        }
        m += 1;
    }
    assert(models.take(models.len() as int) =~= models);
    assert(wanted.take(wanted.len() as int) =~= wanted);
    Ok(())
}

/// What is left of the daily totals once the planned turns have been written
/// with these outcomes. A turn counts against its total whatever became of
/// its row.
pub fn settle_cindy_usage(plan: &CindyPlan, outcomes: &Vec<DesktopUsageInsertOutcome>) -> (r:
    Result<CindySettlement, AppError>)
    requires
        outcomes@.len() == plan.turns@.len(),
    ensures
        match r {
            Ok(done) => {
                &&& plan_fault(
                    cindy_ledger::groups_of(plan.daily@),
                    cindy_plan::planned_turns(plan.turns@),
                ) is None
                &&& done.imported == numbers::counted(rows_written(outcomes@))
                &&& residuals_of(done.residuals@) == all_residuals(
                    cindy_ledger::groups_of(plan.daily@),
                    cindy_plan::planned_turns(plan.turns@),
                    outcomes@,
                )
            },
            Err(error) => plan_fault(
                cindy_ledger::groups_of(plan.daily@),
                cindy_plan::planned_turns(plan.turns@),
            ) == Some(error@),
        },
{
    let ghost daily = cindy_ledger::groups_of(plan.daily@);
    let ghost turns = cindy_plan::planned_turns(plan.turns@);
    let mut residuals: Vec<CindyResidual> = Vec::new();
    let mut d: usize = 0;
    assert(residuals_of(residuals@) =~= all_residuals(daily.take(0), turns, outcomes@));
    while d < plan.daily.len()
        invariant
            d <= plan.daily@.len(),
            outcomes@.len() == plan.turns@.len(),
            daily == cindy_ledger::groups_of(plan.daily@),
            turns == cindy_plan::planned_turns(plan.turns@),
            plan_fault(daily.take(d as int), turns) is None,
            residuals_of(residuals@) == all_residuals(daily.take(d as int), turns, outcomes@),
        decreases plan.daily@.len() - d,
    {
        assert(daily.take(d + 1).drop_last() =~= daily.take(d as int));
        assert(daily[d as int] == plan.daily@[d as int]@);
        match settle_group(&plan.daily[d], &plan.turns, outcomes, &mut residuals) {
            Ok(_) => {},
            Err(error) => {
                proof {
                    lemma_plan_fault(daily, turns, d as int);
                }
                return Err(error);
            },
        }
        d += 1;
    }
    assert(daily.take(daily.len() as int) =~= daily);
    Ok(CindySettlement { imported: count_rows(outcomes), residuals })
}

/// A row of the daily rollups that holds what is left of a daily total.
#[derive(Debug)]
pub struct CindyRollupRow {
    pub date: String,
    pub app_type: String,
    pub provider_id: String,
    pub model: String,
    pub request_model: String,
    pub tokens: CindyTokenBuckets,
    pub total_cost_usd: u64,
}

/// What a row of the daily rollups says.
pub struct RollupRow {
    pub date: Seq<char>,
    pub app_type: Seq<char>,
    pub provider_id: Seq<char>,
    pub model: Seq<char>,
    pub request_model: Seq<char>,
    pub tokens: Tokens,
    pub total_cost_usd: u64,
}

impl View for CindyRollupRow {
    type V = RollupRow;

    open spec fn view(&self) -> RollupRow {
        RollupRow {
            date: self.date@,
            app_type: self.app_type@,
            provider_id: self.provider_id@,
            model: self.model@,
            request_model: self.request_model@,
            tokens: self.tokens@,
            total_cost_usd: self.total_cost_usd,
        }
    }
}

/// The row for what is left of a daily total, at `cost`. Where neither tokens
/// nor dollars are left, there is none. What the agent of the application
/// `app` used is marked, since that application's own rows have it too.
pub open spec fn rollup_row(
    left: Residual,
    cost: u64,
    mirror_model: Seq<char>,
    app: Seq<char>,
) -> Option<RollupRow> {
    if left.tokens == Tokens::none() && usage::zero_bits(cost) {
        None
    } else {
        Some(
            RollupRow {
                date: left.key.day,
                app_type: usage::CINDY_APP_TYPE@,
                provider_id: cindy::provider_of(left.key.agent, app),
                model: left.model,
                request_model: if cindy::belongs_to(left.key.agent, app) {
                    mirror_model
                } else {
                    left.model
                },
                tokens: left.tokens,
                total_cost_usd: cost,
            },
        )
    }
}

/// The row for what is left of a daily total, at `residual_cost`.
pub fn cindy_daily_rollup(
    left: &CindyResidual,
    residual_cost: u64,
    mirror_model: &str,
    app: &str,
) -> (r: Option<CindyRollupRow>)
    ensures
        match r {
            Some(row) => rollup_row(left@, residual_cost, mirror_model@, app@) == Some(row@),
            None => rollup_row(left@, residual_cost, mirror_model@, app@) is None,
        },
{
    if left.tokens.is_zero() && usage::is_zero_cost(residual_cost) {
        return None;
    }
    let agent = left.key.agent_kind.as_str();
    let request_model = if cindy::is_agent_of(agent, app) {
        mirror_model
    } else {
        left.model.as_str()
    };
    Some(
        CindyRollupRow {
            date: left.key.day.as_str().to_owned(),
            app_type: usage::CINDY_APP_TYPE.to_owned(),
            provider_id: cindy::cindy_provider_id(agent, app),
            model: left.model.as_str().to_owned(),
            request_model: request_model.to_owned(),
            tokens: left.tokens,
            total_cost_usd: residual_cost,
        },
    )
}

/// A planned turn counts against a daily total where it is under its key and of
/// its model, with each of its tokens, and no other turn does.
pub proof fn law_turns_count_against_their_total(
    plan: Seq<PlannedTurn>,
    turn: PlannedTurn,
    key: UsageKey,
    model: Seq<char>,
)
    ensures
        covered(Seq::empty(), key, model) == (Tokens {
            input: 0,
            output: 0,
            cache_read: 0,
            cache_create: 0,
        }),
        turn.key == key && turn.record.model == model ==> ({
            let before = covered(plan, key, model);
            covered(plan.push(turn), key, model) == (Tokens {
                input: before.input + turn.record.input_tokens,
                output: before.output + turn.record.output_tokens,
                cache_read: before.cache_read + turn.record.cache_read_tokens,
                cache_create: before.cache_create + turn.record.cache_creation_tokens,
            })
        }),
        turn.key != key || turn.record.model != model ==> covered(plan.push(turn), key, model)
            == covered(plan, key, model),
{
    assert(plan.push(turn).drop_last() =~= plan);
}

/// The costs that other applications have are those of the planned turns that
/// were found there and count against the total, in their order.
pub proof fn law_costs_of_mirrored_turns_are_known(
    plan: Seq<PlannedTurn>,
    outcomes: Seq<DesktopUsageInsertOutcome>,
    turn: PlannedTurn,
    outcome: DesktopUsageInsertOutcome,
    key: UsageKey,
    model: Seq<char>,
)
    requires
        plan.len() == outcomes.len(),
    ensures
        upstream_costs(Seq::empty(), Seq::empty(), key, model).len() == 0,
        ({
            let before = upstream_costs(plan, outcomes, key, model);
            let after = upstream_costs(plan.push(turn), outcomes.push(outcome), key, model);
            match outcome {
                DesktopUsageInsertOutcome::AccountedInUpstreamApp { total_cost_usd, .. } => if turn.key
                    == key && turn.record.model == model {
                    after == before.push(total_cost_usd)
                } else {
                    after == before
                },
                _ => after == before,
            }
        }),
{
    assert(plan.push(turn).drop_last() =~= plan);
    assert(outcomes.push(outcome).drop_last() =~= outcomes);
}

/// As many rows count as imported as were written, own rows and mirrors alike.
pub proof fn law_written_rows_are_counted(
    outcomes: Seq<DesktopUsageInsertOutcome>,
    outcome: DesktopUsageInsertOutcome,
)
    ensures
        rows_written(Seq::empty()) == 0,
        rows_written(outcomes.push(outcome)) == rows_written(outcomes) + match outcome {
            DesktopUsageInsertOutcome::Inserted => 1int,
            DesktopUsageInsertOutcome::AccountedInSameApp => 0,
            DesktopUsageInsertOutcome::AccountedInUpstreamApp { mirror_inserted, .. } => if mirror_inserted {
                1
            } else {
                0
            },
        },
{
    assert(outcomes.push(outcome).drop_last() =~= outcomes);
}

/// What is left of a daily total goes by its key and its model and has all its
/// costs, and of each count what the planned turns do not cover.
pub proof fn law_what_is_left_of_a_total(
    key: UsageKey,
    total: SourceTotal,
    plan: Seq<PlannedTurn>,
    outcomes: Seq<DesktopUsageInsertOutcome>,
)
    requires
        covered(plan, key, total.model).held() == covered(plan, key, total.model),
    ensures
        ({
            let left = residual(key, total, plan, outcomes);
            let taken = covered(plan, key, total.model);
            &&& left.key == key
            &&& left.model == total.model
            &&& left.costs == total.costs
            &&& left.upstream_costs == upstream_costs(plan, outcomes, key, total.model)
            &&& left.tokens.input + taken.input == total.tokens.input
            &&& left.tokens.output + taken.output == total.tokens.output
            &&& left.tokens.cache_read + taken.cache_read == total.tokens.cache_read
            &&& left.tokens.cache_create + taken.cache_create == total.tokens.cache_create
        }),
{
}

/// What is left is written as a row of its day, with its model, its tokens and
/// its cost, unless both are nothing. The row of the application's own agent is
/// marked as a mirror, and no other is.
pub proof fn law_row_for_what_is_left(
    left: Residual,
    cost: u64,
    mirror_model: Seq<char>,
    app: Seq<char>,
)
    ensures
        rollup_row(left, cost, mirror_model, app) is None <==> left.tokens.input == 0
            && left.tokens.output == 0 && left.tokens.cache_read == 0 && left.tokens.cache_create
            == 0 && (cost == 0 || cost == 0x8000_0000_0000_0000),
        rollup_row(left, cost, mirror_model, app) matches Some(row) ==> {
            &&& row.date == left.key.day
            &&& row.app_type == "cindy"@
            &&& row.model == left.model
            &&& row.tokens == left.tokens
            &&& row.total_cost_usd == cost
            &&& left.key.agent == app + "-code"@ ==> row.request_model == mirror_model
                && row.provider_id == "_cindy_"@ + app + "_code"@
            &&& left.key.agent == "codex"@ ==> row.request_model == left.model && row.provider_id
                == "_cindy_codex"@
            &&& left.key.agent == "pi"@ ==> row.request_model == left.model && row.provider_id
                == "_cindy_pi"@
            &&& left.key.agent != "cc"@ && left.key.agent != app + "-code"@ && left.key.agent
                != "codex"@ && left.key.agent != "pi"@ ==> row.request_model == left.model
                && row.provider_id == "_cindy_session"@
        },
{
    cindy::law_names_of_agents(left.key.agent, app);
    reveal_strlit("-code");
    reveal_strlit("codex");
    reveal_strlit("cc");
    reveal_strlit("pi");
    let long = app + "-code"@;
    assert(long.last() == 'e');
    assert("codex"@.last() == 'x');
    assert("pi"@[0] == 'p' && "cc"@[0] == 'c');
}

/// Planned turns that hold more tokens than a daily total are refused, and the
/// failure names the first such day, agent and model; where none do, there is
/// no failure.
pub proof fn law_excess_is_refused(daily: Seq<DailyGroup>, plan: Seq<PlannedTurn>, d: int, m: int)
    requires
        0 <= d < daily.len(),
        0 <= m < daily[d].models.len(),
        !covered(plan, daily[d].key, daily[d].models[m].model).held().within(
            daily[d].models[m].tokens,
        ),
        forall|g: int, k: int|
            #![trigger daily[g].models[k]]
            0 <= g < daily.len() && 0 <= k < daily[g].models.len() && (g < d || (g == d && k < m))
                ==> covered(plan, daily[g].key, daily[g].models[k].model).held().within(
                daily[g].models[k].tokens,
            ),
    ensures
        plan_fault(daily, plan) == Some(
            Fault::Database(
                "Cindy 明细补差超过日表: day="@ + daily[d].key.day + ", agent="@ + daily[d].key.agent
                    + ", model="@ + daily[d].models[m].model,
            ),
        ),
{
    let models = daily[d].models;
    assert forall|k: int| 0 <= k < m implies excess_fault(
        daily[d].key,
        #[trigger] models[k],
        plan,
    ) is None by {
        assert(daily[d].models[k] == models[k]);
    }
    lemma_no_excess(daily[d].key, models, plan, m);
    lemma_group_fault(daily[d].key, models, plan, m);
    assert forall|g: int| 0 <= g < d implies group_fault(
        (#[trigger] daily[g]).key,
        daily[g].models,
        plan,
    ) is None by {
        let own = daily[g].models;
        assert forall|k: int| 0 <= k < own.len() implies excess_fault(
            daily[g].key,
            #[trigger] own[k],
            plan,
        ) is None by {
            assert(daily[g].models[k] == own[k]);
        }
        lemma_no_excess(daily[g].key, own, plan, own.len() as int);
        assert(own.take(own.len() as int) =~= own);
    }
    lemma_no_fault_before(daily, plan, d);
    lemma_plan_fault(daily, plan, d);
}

proof fn lemma_no_excess(key: UsageKey, models: Seq<SourceTotal>, plan: Seq<PlannedTurn>, n: int)
    requires
        0 <= n <= models.len(),
        forall|k: int| 0 <= k < n ==> excess_fault(key, #[trigger] models[k], plan) is None,
    ensures
        group_fault(key, models.take(n), plan) is None,
    decreases n,
{
    if n > 0 {
        lemma_no_excess(key, models, plan, n - 1);
        assert(models.take(n).drop_last() =~= models.take(n - 1));
    }
}

proof fn lemma_no_fault_before(daily: Seq<DailyGroup>, plan: Seq<PlannedTurn>, n: int)
    requires
        0 <= n <= daily.len(),
        forall|g: int|
            0 <= g < n ==> group_fault((#[trigger] daily[g]).key, daily[g].models, plan) is None,
    ensures
        plan_fault(daily.take(n), plan) is None,
    decreases n,
{
    if n > 0 {
        lemma_no_fault_before(daily, plan, n - 1);
        assert(daily.take(n).drop_last() =~= daily.take(n - 1));
    }
}

} // verus!
