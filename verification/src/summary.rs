//! Totals over completed turns.

use vstd::prelude::*;
use crate::clock;
use crate::insights;
use crate::insights::{ActiveFacts, CollectorFacts, CompletedFacts, CompletedTurn, NamedCount,
    TokenSnapshot};
use crate::json;
use crate::json::{JsonNumber, JsonTree};
use crate::paths;
use crate::text;

verus! {

/// A number that every completed turn has.
#[derive(Clone, Copy, Debug, PartialEq, Eq, Structural)]
pub enum Metric {
    Requests,
    Input,
    CachedInput,
    Output,
}

/// The number of a turn.
pub open spec fn metric_of(turn: CompletedFacts, metric: Metric) -> int {
    match metric {
        Metric::Requests => turn.model_requests,
        Metric::Input => turn.input_tokens,
        Metric::CachedInput => turn.cached_input_tokens,
        Metric::Output => turn.output_tokens,
    }
}

/// The numbers of turns added up.
pub open spec fn metric_sum(turns: Seq<(Seq<char>, CompletedFacts)>, metric: Metric) -> int
    decreases turns.len(),
{
    if turns.len() == 0 {
        0
    } else {
        metric_sum(turns.drop_last(), metric) + metric_of(turns.last().1, metric)
    }
}

/// Counts with those of `source` added to them, name by name.
pub open spec fn merged(target: Seq<(Seq<char>, int)>, source: Seq<(Seq<char>, int)>) -> Seq<
    (Seq<char>, int),
>
    decreases source.len(),
{
    if source.len() == 0 {
        target
    } else {
        insights::raised(merged(target, source.drop_last()), source.last().0, source.last().1)
    }
}

/// What of a turn is counted by name.
#[derive(Clone, Copy, Debug, PartialEq, Eq, Structural)]
pub enum Calls {
    Mcp,
    Skill,
}

/// The calls of a turn.
pub open spec fn calls_of(turn: CompletedFacts, calls: Calls) -> Seq<(Seq<char>, int)> {
    match calls {
        Calls::Mcp => turn.mcp_calls,
        Calls::Skill => turn.skill_calls,
    }
}

/// The calls of turns, name by name.
pub open spec fn all_calls(turns: Seq<(Seq<char>, CompletedFacts)>, calls: Calls) -> Seq<
    (Seq<char>, int),
>
    decreases turns.len(),
{
    if turns.len() == 0 {
        Seq::empty()
    } else {
        merged(all_calls(turns.drop_last(), calls), calls_of(turns.last().1, calls))
    }
}

/// How many calls turns made.
pub open spec fn calls_sum(turns: Seq<(Seq<char>, CompletedFacts)>, calls: Calls) -> int
    decreases turns.len(),
{
    if turns.len() == 0 {
        0
    } else {
        calls_sum(turns.drop_last(), calls) + insights::total(calls_of(turns.last().1, calls))
    }
}

/// The order in which counts are listed: the higher first, and names in order
/// among equals.
pub open spec fn listed_before(a: (Seq<char>, int), b: (Seq<char>, int)) -> bool {
    a.1 > b.1 || (a.1 == b.1 && text::text_before(a.0, b.0))
}

/// A count put into its place in a list.
pub open spec fn placed(listed: Seq<(Seq<char>, int)>, item: (Seq<char>, int)) -> Seq<
    (Seq<char>, int),
>
    decreases listed.len(),
{
    if listed.len() > 0 && listed_before(item, listed.last()) {
        placed(listed.drop_last(), item).push(listed.last())
    } else {
        listed.push(item)
    }
}

/// Counts as they are listed.
pub open spec fn listed(items: Seq<(Seq<char>, int)>) -> Seq<(Seq<char>, int)>
    decreases items.len(),
{
    if items.len() == 0 {
        Seq::empty()
    } else {
        placed(listed(items.drop_last()), items.last())
    }
}

/// None is to be listed before an earlier one.
pub open spec fn in_listing_order(items: Seq<(Seq<char>, int)>) -> bool {
    forall|i: int, j: int|
        0 <= i < j < items.len() ==> !listed_before(#[trigger] items[j], #[trigger] items[i])
}

proof fn lemma_listing_order(a: (Seq<char>, int), b: (Seq<char>, int), c: (Seq<char>, int))
    ensures
        !(listed_before(a, b) && listed_before(b, a)),
        !listed_before(a, b) && !listed_before(b, a) ==> a == b,
        listed_before(a, b) && listed_before(b, c) ==> listed_before(a, c),
{
    text::law_text_order_total(a.0, b.0);
    if listed_before(a, b) && listed_before(b, c) && a.1 == b.1 && b.1 == c.1 {
        text::law_text_order_transitive(a.0, b.0, c.0);
    }
}

proof fn lemma_placed(items: Seq<(Seq<char>, int)>, item: (Seq<char>, int))
    requires
        in_listing_order(items),
    ensures
        in_listing_order(placed(items, item)),
        placed(items, item).to_multiset() == items.to_multiset().insert(item),
    decreases items.len(),
{
    broadcast use vstd::seq_lib::group_to_multiset_ensures;

    if items.len() > 0 && listed_before(item, items.last()) {
        let fewer = items.drop_last();
        lemma_placed(fewer, item);
        let most = placed(fewer, item);
        assert(items =~= fewer.push(items.last()));
        assert forall|i: int| 0 <= i < most.len() implies !listed_before(
            items.last(),
            #[trigger] most[i],
        ) by {
            assert(most.to_multiset().contains(most[i]));
            if most[i] == item {
                lemma_listing_order(item, items.last(), item);
            } else {
                assert(fewer.to_multiset().contains(most[i]));
                assert(fewer.contains(most[i]));
                let k = fewer.index_of(most[i]);
                assert(items[k] == most[i]);
            }
        }
    } else {
        assert forall|i: int| 0 <= i < items.len() implies !listed_before(
            item,
            #[trigger] items[i],
        ) by {
            if i < items.len() - 1 && listed_before(item, items[i]) {
                let last = items.last();
                assert(!listed_before(last, items[i]));
                lemma_listing_order(items[i], last, last);
                lemma_listing_order(item, items[i], last);
            }
        }
    }
}

/// A listing loses no count and adds none, and none is to be listed before an
/// earlier one.
pub proof fn law_listed(items: Seq<(Seq<char>, int)>)
    ensures
        in_listing_order(listed(items)),
        listed(items).to_multiset() == items.to_multiset(),
    decreases items.len(),
{
    broadcast use vstd::seq_lib::group_to_multiset_ensures;

    if items.len() == 0 {
        assert(listed(items) =~= items);
    } else {
        law_listed(items.drop_last());
        lemma_placed(listed(items.drop_last()), items.last());
        assert(items =~= items.drop_last().push(items.last()));
    }
}

fn is_listed_before(a: &NamedCount, b: &NamedCount) -> (r: bool)
    ensures
        r == listed_before((a.name@, a.count as int), (b.name@, b.count as int)),
{
    a.count > b.count || (a.count == b.count && text::is_before(a.name.as_str(), b.name.as_str()))
}

fn place_count(items: &mut Vec<NamedCount>, item: NamedCount)
    ensures
        insights::counts(final(items)@) == placed(
            insights::counts(old(items)@),
            (item.name@, item.count as int),
        ),
{
    let ghost all = insights::counts(items@);
    let ghost value = (item.name@, item.count as int);
    let mut i: usize = items.len();
    assert(all.take(i as int) =~= all);
    assert(placed(all, value) =~= placed(all, value) + all.skip(i as int));
    while i > 0 && is_listed_before(&item, &items[i - 1])
        invariant
            i <= items@.len(),
            all == insights::counts(items@),
            value == (item.name@, item.count as int),
            placed(all, value) == placed(all.take(i as int), value) + all.skip(i as int),
        decreases i,
    {
        proof {
            let part = all.take(i as int);
            assert(part.drop_last() =~= all.take(i - 1));
            assert(part.last() == all[i - 1]);
            assert(placed(part, value) =~= placed(all.take(i - 1), value).push(all[i - 1]));
            assert(placed(part, value) + all.skip(i as int) =~= placed(all.take(i - 1), value)
                + all.skip(i - 1));
        }
        i -= 1;
    }
    proof {
        let part = all.take(i as int);
        if i > 0 {
            assert(part.last() == all[i - 1]);
        }
        assert(placed(part, value) =~= part.push(value));
    }
    items.insert(i, item);
    assert(insights::counts(items@) =~= all.take(i as int).push(value) + all.skip(i as int));
}

/// Counts as they are listed: the higher first, and names in order among
/// equals.
pub fn sorted_counts(items: Vec<NamedCount>) -> (r: Vec<NamedCount>)
    ensures
        insights::counts(r@) == listed(insights::counts(items@)),
{
    let ghost given = items@;
    let ghost all = insights::counts(items@);
    let mut out: Vec<NamedCount> = Vec::new();
    assert(insights::counts(out@) =~= listed(all.take(0)));
    for item in it: items.into_iter()
        invariant
            it.seq() == given,
            all == insights::counts(given),
            insights::counts(out@) == listed(all.take(it.index() as int)),
    {
        let ghost i = it.index() as int;
        assert(all.take(i + 1).drop_last() =~= all.take(i));
        assert(all[i] == (item.name@, item.count as int));
        place_count(&mut out, item);
    }
    assert(all.take(all.len() as int) =~= all);
    out
}

proof fn lemma_merged(target: Seq<(Seq<char>, int)>, source: Seq<(Seq<char>, int)>)
    ensures
        insights::total(merged(target, source)) == insights::total(target) + insights::total(
            source,
        ),
    decreases source.len(),
{
    if source.len() > 0 {
        lemma_merged(target, source.drop_last());
        insights::lemma_raised(
            merged(target, source.drop_last()),
            source.last().0,
            source.last().1,
        );
    }
}

/// A count is no more than all of them together.
proof fn lemma_count_in_total(items: Seq<(Seq<char>, int)>, i: int)
    requires
        forall|k: int| 0 <= k < items.len() ==> 0 <= (#[trigger] items[k]).1,
        0 <= i < items.len(),
    ensures
        items[i].1 <= insights::total(items),
{
    insights::lemma_total_grows(items, i);
    insights::lemma_total_grows(items, i + 1);
    insights::lemma_total_grows(items.take(i), 0);
    assert(items.take(i + 1).drop_last() =~= items.take(i));
    assert(items.take(i).take(0) =~= Seq::<(Seq<char>, int)>::empty());
}

/// Adds the counts of `source` to those of `target`, name by name.
pub fn merge_counts(target: &mut Vec<NamedCount>, source: &Vec<NamedCount>)
    requires
        insights::total(insights::counts(old(target)@)) + insights::total(
            insights::counts(source@),
        ) <= u64::MAX,
    ensures
        insights::counts(final(target)@) == merged(
            insights::counts(old(target)@),
            insights::counts(source@),
        ),
{
    let ghost start = insights::counts(target@);
    let ghost all = insights::counts(source@);
    let mut i: usize = 0;
    assert(all.take(0) =~= Seq::<(Seq<char>, int)>::empty());
    while i < source.len()
        invariant
            i <= source@.len(),
            all == insights::counts(source@),
            insights::total(start) + insights::total(all) <= u64::MAX,
            insights::counts(target@) == merged(start, all.take(i as int)),
        decreases source@.len() - i,
    {
        proof {
            assert(all.take(i + 1).drop_last() =~= all.take(i as int));
            assert(all[i as int] == (source@[i as int].name@, source@[i as int].count as int));
            lemma_merged(start, all.take(i as int));
            insights::lemma_total_grows(all, i + 1);
            let now = insights::counts(target@);
            assert forall|k: int|
                0 <= k < target@.len() && (#[trigger] target@[k]).name@
                    == source@[i as int].name@ implies target@[k].count + source@[i as int].count
                <= u64::MAX by {
                assert(now[k] == (target@[k].name@, target@[k].count as int));
                lemma_count_in_total(now, k);
            }
        }
        insights::raise(target, source[i].name.as_str(), source[i].count);
        i += 1;
    }
    assert(all.take(all.len() as int) =~= all);
}

/// All totals over turns fit in 64 bits.
pub open spec fn totals_fit(turns: Seq<(Seq<char>, CompletedFacts)>) -> bool {
    &&& metric_sum(turns, Metric::Requests) <= u64::MAX
    &&& metric_sum(turns, Metric::Input) <= u64::MAX
    &&& metric_sum(turns, Metric::CachedInput) <= u64::MAX
    &&& metric_sum(turns, Metric::Output) <= u64::MAX
    &&& calls_sum(turns, Calls::Mcp) <= u64::MAX
    &&& calls_sum(turns, Calls::Skill) <= u64::MAX
}

fn read_metric(turn: &CompletedTurn, metric: Metric) -> (r: u64)
    ensures
        r == metric_of(turn@, metric),
{
    match metric {
        Metric::Requests => turn.model_requests,
        Metric::Input => turn.input_tokens,
        Metric::CachedInput => turn.cached_input_tokens,
        Metric::Output => turn.output_tokens,
    }
}

fn calls_in(turn: &CompletedTurn, calls: Calls) -> (r: &Vec<NamedCount>)
    ensures
        insights::counts(r@) == calls_of(turn@, calls),
{
    match calls {
        Calls::Mcp => &turn.mcp_calls,
        Calls::Skill => &turn.skill_calls,
    }
}

/// The view of a turn has no number below zero.
spec fn natural(turns: Seq<(Seq<char>, CompletedFacts)>) -> bool {
    forall|i: int, m: Metric|
        0 <= i < turns.len() ==> 0 <= #[trigger] metric_of(turns[i].1, m) <= u64::MAX
}

proof fn lemma_metric_grows(turns: Seq<(Seq<char>, CompletedFacts)>, m: Metric, n: int)
    requires
        natural(turns),
        0 <= n <= turns.len(),
    ensures
        metric_sum(turns.take(n), m) <= metric_sum(turns, m),
        0 <= metric_sum(turns, m),
    decreases turns.len(),
{
    if n == turns.len() {
        assert(turns.take(n) =~= turns);
        if n > 0 {
            let fewer = turns.drop_last();
            assert(natural(fewer)) by {
                assert forall|i: int, m: Metric| 0 <= i < fewer.len() implies 0
                    <= #[trigger] metric_of(fewer[i].1, m) <= u64::MAX by {
                    assert(fewer[i] == turns[i]);
                    assert(0 <= metric_of(turns[i].1, m));
                }
            }
            lemma_metric_grows(fewer, m, 0);
            assert(0 <= metric_of(turns[n - 1].1, m));
        }
    } else {
        let fewer = turns.drop_last();
        assert(natural(fewer)) by {
            assert forall|i: int, m: Metric| 0 <= i < fewer.len() implies 0
                <= #[trigger] metric_of(fewer[i].1, m) <= u64::MAX by {
                assert(fewer[i] == turns[i]);
                assert(0 <= metric_of(turns[i].1, m));
            }
        }
        lemma_metric_grows(fewer, m, n);
        assert(fewer.take(n) =~= turns.take(n));
        assert(0 <= metric_of(turns[turns.len() - 1].1, m));
    }
}

proof fn lemma_natural(turns: Seq<(String, CompletedTurn)>)
    ensures
        natural(insights::turn_table(turns)),
{
    let table = insights::turn_table(turns);
    assert forall|i: int, m: Metric| 0 <= i < table.len() implies 0 <= #[trigger] metric_of(
        table[i].1,
        m,
    ) <= u64::MAX by {
        assert(table[i].1 == turns[i].1@);
    }
}

/// The numbers of turns added up, if that fits in 64 bits.
fn checked_metric_sum(turns: &Vec<(String, CompletedTurn)>, which: Metric) -> (r: Option<u64>)
    ensures
        match r {
            Some(sum) => sum == metric_sum(insights::turn_table(turns@), which),
            None => metric_sum(insights::turn_table(turns@), which) > u64::MAX,
        },
{
    let ghost table = insights::turn_table(turns@);
    let mut sum: u64 = 0;
    let mut i: usize = 0;
    while i < turns.len()
        invariant
            i <= turns@.len(),
            table == insights::turn_table(turns@),
            sum == metric_sum(table.take(i as int), which),
        decreases turns@.len() - i,
    {
        proof {
            assert(table.take(i + 1).drop_last() =~= table.take(i as int));
            assert(table[i as int].1 == turns@[i as int].1@);
            lemma_natural(turns@);
            lemma_metric_grows(table, which, i + 1);
        }
        sum = match sum.checked_add(read_metric(&turns[i].1, which)) {
            Some(sum) => sum,
            None => return None,
        };
        i += 1;
    }
    assert(table.take(table.len() as int) =~= table);
    Some(sum)
}

proof fn lemma_calls_grow(turns: Seq<(String, CompletedTurn)>, calls: Calls, n: int)
    requires
        0 <= n <= turns.len(),
    ensures
        calls_sum(insights::turn_table(turns).take(n), calls) <= calls_sum(
            insights::turn_table(turns),
            calls,
        ),
    decreases turns.len(),
{
    let table = insights::turn_table(turns);
    if n == turns.len() {
        assert(table.take(n) =~= table);
    } else {
        let fewer = turns.drop_last();
        lemma_calls_grow(fewer, calls, n);
        assert(insights::turn_table(fewer) =~= table.drop_last());
        assert(table.drop_last().take(n) =~= table.take(n));
        let last = turns[turns.len() - 1].1;
        let items = calls_of(last@, calls);
        insights::lemma_total_grows(items, 0);
        assert(items.take(0) =~= Seq::<(Seq<char>, int)>::empty());
        assert(table.last().1 == last@);
    }
}

/// The calls of a turn added up, if that fits in 64 bits.
fn checked_total(items: &Vec<NamedCount>) -> (r: Option<u64>)
    ensures
        match r {
            Some(sum) => sum == insights::total(insights::counts(items@)),
            None => insights::total(insights::counts(items@)) > u64::MAX,
        },
{
    let ghost all = insights::counts(items@);
    let mut sum: u64 = 0;
    let mut i: usize = 0;
    while i < items.len()
        invariant
            i <= items@.len(),
            all == insights::counts(items@),
            sum == insights::total(all.take(i as int)),
        decreases items@.len() - i,
    {
        proof {
            assert(all.take(i + 1).drop_last() =~= all.take(i as int));
            assert(all[i as int] == (items@[i as int].name@, items@[i as int].count as int));
            insights::lemma_total_grows(all, i + 1);
        }
        sum = match sum.checked_add(items[i].count) {
            Some(sum) => sum,
            None => return None,
        };
        i += 1;
    }
    assert(all.take(all.len() as int) =~= all);
    Some(sum)
}

/// Whether the calls of turns fit in 64 bits.
fn calls_fit(turns: &Vec<(String, CompletedTurn)>, calls: Calls) -> (r: bool)
    ensures
        r == (calls_sum(insights::turn_table(turns@), calls) <= u64::MAX),
{
    let ghost table = insights::turn_table(turns@);
    let mut sum: u64 = 0;
    let mut i: usize = 0;
    while i < turns.len()
        invariant
            i <= turns@.len(),
            table == insights::turn_table(turns@),
            sum == calls_sum(table.take(i as int), calls),
        decreases turns@.len() - i,
    {
        proof {
            assert(table.take(i + 1).drop_last() =~= table.take(i as int));
            assert(table[i as int].1 == turns@[i as int].1@);
            lemma_calls_grow(turns@, calls, i + 1);
        }
        let more: u64 = match checked_total(calls_in(&turns[i].1, calls)) {
            Some(more) => more,
            None => return false,
        };
        sum = match sum.checked_add(more) {
            Some(sum) => sum,
            None => return false,
        };
        i += 1;
    }
    assert(table.take(table.len() as int) =~= table);
    true
}

/// Whether all totals over turns fit in 64 bits.
pub fn summary_fits(turns: &Vec<(String, CompletedTurn)>) -> (r: bool)
    ensures
        r == totals_fit(insights::turn_table(turns@)),
{
    checked_metric_sum(turns, Metric::Requests).is_some() && checked_metric_sum(
        turns,
        Metric::Input,
    ).is_some() && checked_metric_sum(turns, Metric::CachedInput).is_some() && checked_metric_sum(
        turns,
        Metric::Output,
    ).is_some() && calls_fit(turns, Calls::Mcp) && calls_fit(turns, Calls::Skill)
}

proof fn lemma_all_calls(turns: Seq<(Seq<char>, CompletedFacts)>, calls: Calls)
    ensures
        insights::total(all_calls(turns, calls)) == calls_sum(turns, calls),
    decreases turns.len(),
{
    if turns.len() > 0 {
        lemma_all_calls(turns.drop_last(), calls);
        lemma_merged(all_calls(turns.drop_last(), calls), calls_of(turns.last().1, calls));
    }
}

/// The calls of turns, name by name.
fn merge_calls(turns: &Vec<(String, CompletedTurn)>, calls: Calls) -> (r: Vec<NamedCount>)
    requires
        calls_sum(insights::turn_table(turns@), calls) <= u64::MAX,
    ensures
        insights::counts(r@) == all_calls(insights::turn_table(turns@), calls),
{
    let ghost table = insights::turn_table(turns@);
    let mut out: Vec<NamedCount> = Vec::new();
    let mut i: usize = 0;
    assert(insights::counts(out@) =~= all_calls(table.take(0), calls));
    while i < turns.len()
        invariant
            i <= turns@.len(),
            table == insights::turn_table(turns@),
            calls_sum(table, calls) <= u64::MAX,
            insights::counts(out@) == all_calls(table.take(i as int), calls),
        decreases turns@.len() - i,
    {
        proof {
            assert(table.take(i + 1).drop_last() =~= table.take(i as int));
            assert(table[i as int].1 == turns@[i as int].1@);
            lemma_all_calls(table.take(i as int), calls);
            lemma_calls_grow(turns@, calls, i + 1);
        }
        merge_counts(&mut out, calls_in(&turns[i].1, calls));
        i += 1;
    }
    assert(table.take(table.len() as int) =~= table);
    out
}

/// The sessions of turns, one by one.
pub open spec fn sessions(turns: Seq<(Seq<char>, CompletedFacts)>) -> Seq<Seq<char>> {
    turns.map_values(|t: (Seq<char>, CompletedFacts)| t.1.session_id)
}

/// When the first of the turns began.
pub open spec fn first_start(turns: Seq<(Seq<char>, CompletedFacts)>) -> i64
    decreases turns.len(),
{
    if turns.len() <= 1 {
        turns[0].1.started_at_ms
    } else {
        let rest = first_start(turns.drop_last());
        if turns.last().1.started_at_ms < rest {
            turns.last().1.started_at_ms
        } else {
            rest
        }
    }
}

/// When the last of the turns was completed.
pub open spec fn last_end(turns: Seq<(Seq<char>, CompletedFacts)>) -> i64
    decreases turns.len(),
{
    if turns.len() <= 1 {
        turns[0].1.completed_at_ms
    } else {
        let rest = last_end(turns.drop_last());
        if turns.last().1.completed_at_ms > rest {
            turns.last().1.completed_at_ms
        } else {
            rest
        }
    }
}

/// Totals over completed turns. What is worked out of them in fractions is
/// left to the caller.
#[derive(Debug)]
pub struct TurnTotals {
    pub completed_turns: u64,
    pub session_count: u64,
    pub model_requests: u64,
    pub input_tokens: u64,
    pub cached_input_tokens: u64,
    pub output_tokens: u64,
    /// The length of the time in which the turns were looked for.
    pub observed_ms: i128,
    pub durations_ms: Vec<JsonNumber>,
    pub ttfts_ms: Vec<JsonNumber>,
    pub mcp_calls: Vec<NamedCount>,
    pub skill_calls: Vec<NamedCount>,
}

/// The totals over turns are what they are to be.
pub open spec fn sums_up(
    totals: TurnTotals,
    turns: Seq<(Seq<char>, CompletedFacts)>,
    start_ms: Option<i64>,
    end_ms: Option<i64>,
) -> bool {
    &&& totals.completed_turns == turns.len()
    &&& totals.session_count == insights::once(sessions(turns)).len()
    &&& totals.model_requests == metric_sum(turns, Metric::Requests)
    &&& totals.input_tokens == metric_sum(turns, Metric::Input)
    &&& totals.cached_input_tokens == metric_sum(turns, Metric::CachedInput)
    &&& totals.output_tokens == metric_sum(turns, Metric::Output)
    &&& totals.observed_ms == (match end_ms {
        Some(end) => end,
        None => last_end(turns),
    }) - (match start_ms {
        Some(start) => start,
        None => first_start(turns),
    })
    &&& totals.durations_ms@ == turns.map_values(
        |t: (Seq<char>, CompletedFacts)| t.1.duration_ms,
    )
    &&& totals.ttfts_ms@ == turns.map_values(|t: (Seq<char>, CompletedFacts)| t.1.ttft_ms)
    &&& insights::counts(totals.mcp_calls@) == listed(all_calls(turns, Calls::Mcp))
    &&& insights::counts(totals.skill_calls@) == listed(all_calls(turns, Calls::Skill))
}

/// The totals over turns. Without turns there are none.
pub fn summarize_turns(
    turns: &Vec<(String, CompletedTurn)>,
    start_ms: Option<i64>,
    end_ms: Option<i64>,
) -> (r: Option<TurnTotals>)
    requires
        totals_fit(insights::turn_table(turns@)),
    ensures
        match r {
            Some(totals) => turns@.len() > 0 && sums_up(
                totals,
                insights::turn_table(turns@),
                start_ms,
                end_ms,
            ),
            None => turns@.len() == 0,
        },
{
    let ghost table = insights::turn_table(turns@);
    if turns.len() == 0 {
        return None;
    }
    let mut names: Vec<String> = Vec::new();
    let mut durations_ms: Vec<JsonNumber> = Vec::new();
    let mut ttfts_ms: Vec<JsonNumber> = Vec::new();
    let mut first: i64 = turns[0].1.started_at_ms;
    let mut last: i64 = turns[0].1.completed_at_ms;
    let mut i: usize = 0;
    assert(table[0].1 == turns@[0].1@);
    assert(table.take(1)[0] == table[0]);
    assert(paths::texts(names@) =~= sessions(table.take(0)));
    while i < turns.len()
        invariant
            i <= turns@.len(),
            table == insights::turn_table(turns@),
            turns@.len() > 0,
            paths::texts(names@) == sessions(table.take(i as int)),
            durations_ms@ == table.take(i as int).map_values(
                |t: (Seq<char>, CompletedFacts)| t.1.duration_ms,
            ),
            ttfts_ms@ == table.take(i as int).map_values(
                |t: (Seq<char>, CompletedFacts)| t.1.ttft_ms,
            ),
            i == 0 ==> first == table[0].1.started_at_ms && last == table[0].1.completed_at_ms,
            i > 0 ==> first == first_start(table.take(i as int)) && last == last_end(
                table.take(i as int),
            ),
        decreases turns@.len() - i,
    {
        let turn = &turns[i].1;
        let ghost names_before = paths::texts(names@);
        proof {
            let more = table.take(i + 1);
            assert(more.drop_last() =~= table.take(i as int));
            assert(table[i as int].1 == turn@);
            assert(more.last() == table[i as int]);
            assert(more[0] == table[0]);
            assert(sessions(more) =~= sessions(table.take(i as int)).push(turn@.session_id));
        }
        names.push(turn.session_id.as_str().to_owned());
        durations_ms.push(turn.duration_ms);
        ttfts_ms.push(turn.ttft_ms);
        if turn.started_at_ms < first {
            first = turn.started_at_ms;
        }
        if turn.completed_at_ms > last {
            last = turn.completed_at_ms;
        }
        assert(paths::texts(names@) =~= names_before.push(turn@.session_id));
        assert(durations_ms@ =~= table.take(i + 1).map_values(
            |t: (Seq<char>, CompletedFacts)| t.1.duration_ms,
        ));
        assert(ttfts_ms@ =~= table.take(i + 1).map_values(
            |t: (Seq<char>, CompletedFacts)| t.1.ttft_ms,
        ));
        i += 1;
    }
    assert(table.take(table.len() as int) =~= table);
    let distinct = insights::texts_once(&names);
    assert(paths::texts(distinct@).len() == distinct@.len());
    let from: i64 = match start_ms {
        Some(start) => start,
        None => first,
    };
    let to: i64 = match end_ms {
        Some(end) => end,
        None => last,
    };
    let model_requests: u64 = match checked_metric_sum(turns, Metric::Requests) {
        Some(sum) => sum,
        None => return None,
    };
    let input_tokens: u64 = match checked_metric_sum(turns, Metric::Input) {
        Some(sum) => sum,
        None => return None,
    };
    let cached_input_tokens: u64 = match checked_metric_sum(turns, Metric::CachedInput) {
        Some(sum) => sum,
        None => return None,
    };
    let output_tokens: u64 = match checked_metric_sum(turns, Metric::Output) {
        Some(sum) => sum,
        None => return None,
    };
    let mcp_calls = sorted_counts(merge_calls(turns, Calls::Mcp));
    let skill_calls = sorted_counts(merge_calls(turns, Calls::Skill));
    Some(
        TurnTotals {
            completed_turns: turns.len() as u64,
            session_count: distinct.len() as u64,
            model_requests,
            input_tokens,
            cached_input_tokens,
            output_tokens,
            observed_ms: to as i128 - from as i128,
            durations_ms,
            ttfts_ms,
            mcp_calls,
            skill_calls,
        },
    )
}

/// No two turns have one id.
pub open spec fn ids_apart(turns: Seq<(Seq<char>, CompletedFacts)>) -> bool {
    forall|i: int, j: int|
        0 <= i < j < turns.len() ==> (#[trigger] turns[i]).0 != (#[trigger] turns[j]).0
}

proof fn lemma_turn_from(turns: Seq<(Seq<char>, CompletedFacts)>, id: Seq<char>, from: int)
    requires
        0 <= from,
    ensures
        match insights::turn_from(turns, id, from) {
            Some(i) => from <= i < turns.len() && turns[i].0 == id,
            None => forall|k: int| from <= k < turns.len() ==> (#[trigger] turns[k]).0 != id,
        },
    decreases turns.len() - from,
{
    if from < turns.len() && turns[from].0 != id {
        lemma_turn_from(turns, id, from + 1);
    }
}

/// However often a turn is repeated in copied logs, it counts once.
pub proof fn law_repeated_turn_counts_once(
    state: insights::CollectorFacts,
    value: crate::json::JsonTree,
    stamp: Option<i64>,
    skills: Seq<Seq<char>>,
)
    requires
        ids_apart(state.turns),
    ensures
        ids_apart(insights::after_value(state, value, stamp, skills).turns),
{
    if let Some(turn) = state.active {
        lemma_turn_from(state.turns, turn.turn_id, 0);
        let after = insights::after_value(state, value, stamp, skills).turns;
        assert forall|i: int, j: int| 0 <= i < j < after.len() implies (#[trigger] after[i]).0 != (
        #[trigger] after[j]).0 by {
            if j < state.turns.len() {
                assert(state.turns[i].0 != state.turns[j].0);
            }
        }
    }
}

proof fn lemma_lines_count_once(state: insights::CollectorFacts, lines: Seq<Seq<char>>)
    requires
        ids_apart(state.turns),
    ensures
        ids_apart(insights::after_lines(state, lines).turns),
    decreases lines.len(),
{
    if lines.len() > 0 {
        lemma_lines_count_once(state, lines.drop_last());
        let before = insights::after_lines(state, lines.drop_last());
        if let Ok(value) = crate::json::parsed_json(lines.last()) {
            law_repeated_turn_counts_once(
                before,
                value,
                insights::stamp_of(value),
                insights::skills_of(value),
            );
        }
    }
}

/// Whatever logs are read after one another, no turn counts twice.
pub proof fn law_logs_count_each_turn_once(
    state: insights::CollectorFacts,
    path: Seq<char>,
    lines: Seq<Seq<char>>,
)
    requires
        ids_apart(state.turns),
    ensures
        ids_apart(insights::after_file(state, path, lines).turns),
{
    lemma_lines_count_once(insights::at_file(state, path), lines);
}

/// A turn that counts is never lost, and the trace of the copy that counts
/// never gets poorer in both requests and calls of servers.
pub proof fn law_counted_turn_stays(
    turns: Seq<(Seq<char>, CompletedFacts)>,
    id: Seq<char>,
    turn: CompletedFacts,
    i: int,
)
    requires
        ids_apart(turns),
        0 <= i < turns.len(),
    ensures
        ({
            let after = insights::with_completed(turns, id, turn);
            &&& i < after.len()
            &&& after[i].0 == turns[i].0
            &&& after[i].1 == turns[i].1 || (id == turns[i].0 && after[i].1 == turn
                && insights::fuller(turn, turns[i].1))
        }),
{
    lemma_turn_from(turns, id, 0);
}

/// The message that a line of a log holds, if it is one.
pub open spec fn message_in(line: Seq<char>) -> Option<JsonTree> {
    match json::parsed_json(line) {
        Ok(value) => if value.get("type"@) == Some(JsonTree::Text("event_msg"@)) {
            value.get("payload"@)
        } else {
            None
        },
        Err(_) => None,
    }
}

/// The milliseconds since the epoch at which a line was written.
pub open spec fn time_of(line: Seq<char>) -> Option<i64> {
    match json::parsed_json(line) {
        Ok(value) => match value.get("timestamp"@) {
            Some(JsonTree::Text(stamp)) => match clock::rfc3339_moment(stamp) {
                Some(moment) => Some(moment.1),
                None => None,
            },
            _ => None,
        },
        Err(_) => None,
    }
}

/// A line holds a message of that kind.
pub open spec fn tells(line: Seq<char>, kind: Seq<char>) -> bool {
    message_in(line) matches Some(message) && message.get("type"@) == Some(JsonTree::Text(kind))
}

/// The id and the time of the turn that a line begins.
pub open spec fn turn_begun_by(line: Seq<char>) -> Option<(Seq<char>, i64)> {
    if tells(line, "task_started"@) {
        match (message_in(line)->0.get("turn_id"@), time_of(line)) {
            (Some(JsonTree::Text(id)), Some(at)) => Some((id, at)),
            _ => None,
        }
    } else {
        None
    }
}

/// A count of tokens that is a natural number.
pub open spec fn natural_in(value: Option<JsonTree>) -> Option<u64> {
    match value {
        Some(JsonTree::Number(JsonNumber::Unsigned(n))) => Some(n),
        _ => None,
    }
}

/// The tokens of the session so far that a line gives.
pub open spec fn total_in(line: Seq<char>) -> Option<TokenSnapshot> {
    if tells(line, "token_count"@) {
        match message_in(line)->0.get("info"@) {
            Some(info) => match info.get("total_token_usage"@) {
                Some(usage) => match (
                    natural_in(usage.get("input_tokens"@)),
                    natural_in(usage.get("output_tokens"@)),
                ) {
                    (Some(input), Some(output)) => {
                        let cached = natural_in(
                            if usage.get("cached_input_tokens"@) is Some {
                                usage.get("cached_input_tokens"@)
                            } else {
                                usage.get("cache_read_input_tokens"@)
                            },
                        );
                        Some(
                            TokenSnapshot {
                                input,
                                cached_input: if cached is Some {
                                    cached->0
                                } else {
                                    0
                                },
                                output,
                            },
                        )
                    },
                    _ => None,
                },
                None => None,
            },
            None => None,
        }
    } else {
        None
    }
}

/// The last of the totals that lines give, and zero where they give none.
pub open spec fn last_total(lines: Seq<Seq<char>>) -> TokenSnapshot
    decreases lines.len(),
{
    if lines.len() == 0 {
        TokenSnapshot { input: 0, cached_input: 0, output: 0 }
    } else {
        match total_in(lines.last()) {
            Some(total) => total,
            None => last_total(lines.drop_last()),
        }
    }
}

/// How many totals lines give.
pub open spec fn totals_given(lines: Seq<Seq<char>>) -> int
    decreases lines.len(),
{
    if lines.len() == 0 {
        0
    } else {
        totals_given(lines.drop_last()) + if total_in(lines.last()) is Some {
            1int
        } else {
            0
        }
    }
}

proof fn lemma_names_of_messages()
    ensures
        "task_started"@ != "token_count"@,
        "task_started"@ != "task_complete"@,
        "token_count"@ != "task_complete"@,
        "event_msg"@ != "session_meta"@,
        "event_msg"@ != "response_item"@,
        "session_meta"@ != "response_item"@,
{
    reveal_strlit("task_started");
    reveal_strlit("token_count");
    reveal_strlit("task_complete");
    reveal_strlit("event_msg");
    reveal_strlit("session_meta");
    reveal_strlit("response_item");
    assert("task_started"@.len() == 12);
    assert("token_count"@.len() == 11);
    assert("task_complete"@.len() == 13);
    assert("event_msg"@.len() == 9);
    assert("session_meta"@.len() == 12);
    assert("response_item"@.len() == 13);
}

/// The number of a turn that is going on.
spec fn same_turn(before: ActiveFacts, after: ActiveFacts) -> bool {
    &&& after.turn_id == before.turn_id
    &&& after.session_id == before.session_id
    &&& after.started_at_ms == before.started_at_ms
    &&& after.base_tokens == before.base_tokens
}

/// What a line does to the collector.
proof fn lemma_line(state: CollectorFacts, line: Seq<char>)
    ensures
        ({
            let after = insights::after_line(state, line);
            &&& after.start_ms == state.start_ms
            &&& after.end_ms == state.end_ms
            &&& after.latest_tokens == (match total_in(line) {
                Some(total) => total,
                None => state.latest_tokens,
            })
            &&& !tells(line, "task_complete"@) ==> after.turns == state.turns
            &&& match turn_begun_by(line) {
                Some((id, at)) => {
                    &&& total_in(line) is None
                    &&& after.turns == state.turns
                    &&& after.active matches Some(turn) && {
                        &&& turn.turn_id == id
                        &&& turn.started_at_ms == at
                        &&& turn.session_id == state.session_id
                        &&& turn.base_tokens == state.latest_tokens
                        &&& turn.last_tokens == state.latest_tokens
                        &&& turn.model_requests == 0
                        &&& turn.mcp_calls.len() == 0
                        &&& turn.skill_calls.len() == 0
                    }
                },
                None => if tells(line, "task_complete"@) {
                    after.active is None && total_in(line) is None
                } else {
                    match (state.active, after.active) {
                        (Some(turn), Some(now)) => {
                            &&& same_turn(turn, now)
                            &&& now.last_tokens == (match total_in(line) {
                                Some(total) => total,
                                None => turn.last_tokens,
                            })
                            &&& now.model_requests == turn.model_requests + if total_in(line)
                                is Some {
                                1int
                            } else {
                                0
                            }
                        },
                        (None, None) => true,
                        _ => false,
                    }
                },
            }
        }),
{
    lemma_names_of_messages();
}

/// The tokens that are known last are those that the lines gave last.
proof fn lemma_latest(state: CollectorFacts, path: Seq<char>, lines: Seq<Seq<char>>)
    ensures
        insights::after_file(state, path, lines).latest_tokens == last_total(lines),
        insights::after_file(state, path, lines).start_ms == state.start_ms,
        insights::after_file(state, path, lines).end_ms == state.end_ms,
    decreases lines.len(),
{
    if lines.len() > 0 {
        lemma_latest(state, path, lines.drop_last());
        lemma_line(insights::after_file(state, path, lines.drop_last()), lines.last());
    }
}

/// Lines between the beginning and the end of a turn neither begin another nor
/// end it.
pub open spec fn inside_turn(lines: Seq<Seq<char>>) -> bool {
    forall|k: int|
        0 <= k < lines.len() ==> turn_begun_by(#[trigger] lines[k]) is None && !tells(
            lines[k],
            "task_complete"@,
        )
}

/// What is known of a turn that is going on.
proof fn lemma_going_on(
    state: CollectorFacts,
    path: Seq<char>,
    before: Seq<Seq<char>>,
    first: Seq<char>,
    between: Seq<Seq<char>>,
)
    requires
        turn_begun_by(first) is Some,
        inside_turn(between),
    ensures
        ({
            let reached = insights::after_file(state, path, before);
            let after = insights::after_file(state, path, before.push(first) + between);
            &&& after.turns == reached.turns
            &&& last_total(before.push(first)) == last_total(before)
            &&& after.active matches Some(turn) && {
                &&& turn.turn_id == (turn_begun_by(first)->0).0
                &&& turn.started_at_ms == (turn_begun_by(first)->0).1
                &&& turn.session_id == reached.session_id
                &&& turn.base_tokens == last_total(before)
                &&& turn.last_tokens == last_total(before.push(first) + between)
                &&& turn.model_requests == totals_given(between)
            }
        }),
    decreases between.len(),
{
    let reached = insights::after_file(state, path, before);
    let whole = before.push(first) + between;
    lemma_latest(state, path, before);
    if between.len() == 0 {
        assert(whole =~= before.push(first));
        assert(whole.drop_last() =~= before);
        lemma_line(reached, first);
    } else {
        let fewer = between.drop_last();
        assert forall|k: int| 0 <= k < fewer.len() implies turn_begun_by(#[trigger] fewer[k]) is None
            && !tells(fewer[k], "task_complete"@) by {
            assert(fewer[k] == between[k]);
        }
        lemma_going_on(state, path, before, first, fewer);
        assert(whole.drop_last() =~= before.push(first) + fewer);
        assert(whole.last() == between.last());
        assert(between.last() == between[between.len() - 1]);
        lemma_line(insights::after_file(state, path, before.push(first) + fewer), between.last());
    }
}

/// `a - b`, and zero where that is below it.
pub open spec fn no_less(a: u64, b: u64) -> int {
    if a >= b {
        a - b
    } else {
        0
    }
}

/// A turn counts what came between its beginning and its end: its tokens are
/// the last total before its end less the last total before its beginning, its
/// requests are the totals in between, and its session is the one that it
/// began in. It is completed where its end lies in the window and tells how
/// long the turn and its first token took.
pub proof fn law_turn_counts_what_came_in_between(
    state: CollectorFacts,
    path: Seq<char>,
    before: Seq<Seq<char>>,
    first: Seq<char>,
    between: Seq<Seq<char>>,
    last: Seq<char>,
    done: i64,
    duration_ms: JsonNumber,
    ttft_ms: JsonNumber,
)
    requires
        turn_begun_by(first) is Some,
        inside_turn(between),
        tells(last, "task_complete"@),
        time_of(last) == Some(done),
        message_in(last)->0.get("duration_ms"@) == Some(JsonTree::Number(duration_ms)),
        message_in(last)->0.get("time_to_first_token_ms"@) == Some(JsonTree::Number(ttft_ms)),
        state.start_ms matches Some(start) ==> start <= done,
        state.end_ms matches Some(end) ==> done <= end,
        forall|k: int|
            0 <= k < insights::after_file(state, path, before).turns.len() ==> (
            #[trigger] insights::after_file(state, path, before).turns[k]).0 != (turn_begun_by(first)->0).0,
    ensures
        ({
            let reached = insights::after_file(state, path, before);
            let whole = before.push(first) + between;
            let after = insights::after_file(state, path, whole.push(last));
            let turn = after.turns.last().1;
            &&& after.turns.len() == reached.turns.len() + 1
            &&& after.turns.drop_last() == reached.turns
            &&& after.turns.last().0 == (turn_begun_by(first)->0).0
            &&& after.active is None
            &&& turn.input_tokens == no_less(last_total(whole).input, last_total(before).input)
            &&& turn.cached_input_tokens == no_less(
                last_total(whole).cached_input,
                last_total(before).cached_input,
            )
            &&& turn.output_tokens == no_less(last_total(whole).output, last_total(before).output)
            &&& turn.model_requests == totals_given(between)
            &&& turn.session_id == reached.session_id
            &&& turn.started_at_ms == (turn_begun_by(first)->0).1
            &&& turn.completed_at_ms == done
            &&& turn.duration_ms == duration_ms
            &&& turn.ttft_ms == ttft_ms
        }),
{
    let whole = before.push(first) + between;
    let going = insights::after_file(state, path, whole);
    lemma_names_of_messages();
    lemma_going_on(state, path, before, first, between);
    lemma_latest(state, path, whole);
    assert(whole.push(last).drop_last() =~= whole);
    let turn = going.active->0;
    lemma_turn_from(going.turns, turn.turn_id, 0);
    let after = insights::after_file(state, path, whole.push(last));
    assert(after == insights::after_line(going, last));
    assert(after.turns.drop_last() =~= going.turns);
}

/// A turn that ends outside of the window, or does not tell how long it or its
/// first token took, does not count, and neither does an end without a
/// beginning.
pub proof fn law_incomplete_turns_do_not_count(
    state: CollectorFacts,
    last: Seq<char>,
)
    requires
        tells(last, "task_complete"@),
        ({
            ||| state.active is None
            ||| time_of(last) is None
            ||| state.start_ms matches Some(start) && time_of(last) matches Some(done) && done
                < start
            ||| state.end_ms matches Some(end) && time_of(last) matches Some(done) && done > end
            ||| !(message_in(last)->0.get("duration_ms"@) matches Some(JsonTree::Number(_)))
            ||| !(message_in(last)->0.get("time_to_first_token_ms"@) matches Some(
                JsonTree::Number(_),
            ))
        }),
    ensures
        insights::after_line(state, last).turns == state.turns,
        insights::after_line(state, last).active is None,
{
    lemma_names_of_messages();
}

/// No total of a log is below an earlier one.
pub open spec fn never_falls(lines: Seq<Seq<char>>) -> bool {
    forall|k: int|
        0 <= k < lines.len() && total_in(#[trigger] lines[k]) is Some ==> {
            let total = total_in(lines[k])->0;
            let earlier = last_total(lines.take(k));
            &&& earlier.input <= total.input
            &&& earlier.cached_input <= total.cached_input
            &&& earlier.output <= total.output
        }
}

/// The input, the cached input and the output of turns added up.
pub open spec fn tokens_of(turns: Seq<(Seq<char>, CompletedFacts)>) -> (int, int, int)
    decreases turns.len(),
{
    if turns.len() == 0 {
        (0, 0, 0)
    } else {
        let rest = tokens_of(turns.drop_last());
        let turn = turns.last().1;
        (
            rest.0 + turn.input_tokens,
            rest.1 + turn.cached_input_tokens,
            rest.2 + turn.output_tokens,
        )
    }
}

proof fn lemma_tokens_update(
    turns: Seq<(Seq<char>, CompletedFacts)>,
    i: int,
    entry: (Seq<char>, CompletedFacts),
)
    requires
        0 <= i < turns.len(),
    ensures
        ({
            let now = tokens_of(turns.update(i, entry));
            let then = tokens_of(turns);
            &&& now.0 == then.0 - turns[i].1.input_tokens + entry.1.input_tokens
            &&& now.1 == then.1 - turns[i].1.cached_input_tokens + entry.1.cached_input_tokens
            &&& now.2 == then.2 - turns[i].1.output_tokens + entry.1.output_tokens
        }),
    decreases turns.len(),
{
    let changed = turns.update(i, entry);
    if i == turns.len() - 1 {
        assert(changed.drop_last() =~= turns.drop_last());
    } else {
        lemma_tokens_update(turns.drop_last(), i, entry);
        assert(changed.drop_last() =~= turns.drop_last().update(i, entry));
    }
}

/// Tokens are no more than a total.
spec fn at_most(tokens: (int, int, int), total: TokenSnapshot) -> bool {
    tokens.0 <= total.input && tokens.1 <= total.cached_input && tokens.2 <= total.output
}

/// No turn has a count below zero.
spec fn no_debts(turns: Seq<(Seq<char>, CompletedFacts)>) -> bool {
    forall|i: int|
        0 <= i < turns.len() ==> (#[trigger] turns[i]).1.input_tokens >= 0
            && turns[i].1.cached_input_tokens >= 0 && turns[i].1.output_tokens >= 0
}

proof fn lemma_never_counts_twice(state: CollectorFacts, path: Seq<char>, lines: Seq<Seq<char>>)
    requires
        state.turns.len() == 0,
        never_falls(lines),
    ensures
        ({
            let after = insights::after_file(state, path, lines);
            &&& no_debts(after.turns)
            &&& after.latest_tokens == last_total(lines)
            &&& match after.active {
                Some(turn) => {
                    &&& at_most(tokens_of(after.turns), turn.base_tokens)
                    &&& turn.last_tokens == after.latest_tokens
                    &&& turn.base_tokens.input <= turn.last_tokens.input
                    &&& turn.base_tokens.cached_input <= turn.last_tokens.cached_input
                    &&& turn.base_tokens.output <= turn.last_tokens.output
                },
                None => at_most(tokens_of(after.turns), after.latest_tokens),
            }
        }),
    decreases lines.len(),
{
    lemma_latest(state, path, lines);
    if lines.len() > 0 {
        let fewer = lines.drop_last();
        assert forall|k: int| 0 <= k < fewer.len() && total_in(#[trigger] fewer[k]) is Some implies {
            let total = total_in(fewer[k])->0;
            let earlier = last_total(fewer.take(k));
            &&& earlier.input <= total.input
            &&& earlier.cached_input <= total.cached_input
            &&& earlier.output <= total.output
        } by {
            assert(fewer[k] == lines[k]);
            assert(fewer.take(k) =~= lines.take(k));
        }
        lemma_never_counts_twice(state, path, fewer);
        let before = insights::after_file(state, path, fewer);
        let after = insights::after_file(state, path, lines);
        let line = lines.last();
        lemma_line(before, line);
        assert(line == lines[lines.len() - 1]);
        assert(lines.take(lines.len() - 1) =~= fewer);
        if tells(line, "task_complete"@) {
            if let Some(turn) = before.active {
                lemma_turn_from(before.turns, turn.turn_id, 0);
                lemma_names_of_messages();
                if after.turns != before.turns {
                    let entry = match insights::turn_from(before.turns, turn.turn_id, 0) {
                        Some(i) => after.turns[i],
                        None => after.turns.last(),
                    };
                    match insights::turn_from(before.turns, turn.turn_id, 0) {
                        Some(i) => {
                            lemma_tokens_update(before.turns, i, entry);
                            assert(after.turns =~= before.turns.update(i, entry));
                            assert(before.turns[i].1.input_tokens >= 0);
                        },
                        None => {
                            assert(after.turns.drop_last() =~= before.turns);
                        },
                    }
                    assert forall|i: int| 0 <= i < after.turns.len() implies (
                    #[trigger] after.turns[i]).1.input_tokens >= 0
                        && after.turns[i].1.cached_input_tokens >= 0
                        && after.turns[i].1.output_tokens >= 0 by {
                        if i < before.turns.len() {
                            assert(before.turns[i].1.input_tokens >= 0);
                        }
                    }
                }
            }
        }
    }
}

/// Over a log whose totals never fall, the completed turns together have no
/// more tokens than the last total: no token is counted in two turns.
pub proof fn law_turns_share_the_tokens_of_a_session(
    state: CollectorFacts,
    path: Seq<char>,
    lines: Seq<Seq<char>>,
)
    requires
        state.turns.len() == 0,
        never_falls(lines),
    ensures
        ({
            let sum = tokens_of(insights::after_file(state, path, lines).turns);
            &&& 0 <= sum.0 <= last_total(lines).input
            &&& 0 <= sum.1 <= last_total(lines).cached_input
            &&& 0 <= sum.2 <= last_total(lines).output
        }),
{
    lemma_never_counts_twice(state, path, lines);
    lemma_tokens_count(insights::after_file(state, path, lines).turns);
}

proof fn lemma_tokens_count(turns: Seq<(Seq<char>, CompletedFacts)>)
    requires
        no_debts(turns),
    ensures
        tokens_of(turns).0 >= 0 && tokens_of(turns).1 >= 0 && tokens_of(turns).2 >= 0,
    decreases turns.len(),
{
    if turns.len() > 0 {
        let fewer = turns.drop_last();
        assert forall|i: int| 0 <= i < fewer.len() implies (#[trigger] fewer[i]).1.input_tokens >= 0
            && fewer[i].1.cached_input_tokens >= 0 && fewer[i].1.output_tokens >= 0 by {
            assert(fewer[i] == turns[i]);
        }
        lemma_tokens_count(fewer);
        assert(turns[turns.len() - 1].1.input_tokens >= 0);
    }
}

/// The totals over turns are the sums of what the turns have, number by
/// number.
pub proof fn law_totals_add_up(turns: Seq<(Seq<char>, CompletedFacts)>)
    ensures
        (
            metric_sum(turns, Metric::Input),
            metric_sum(turns, Metric::CachedInput),
            metric_sum(turns, Metric::Output),
        ) == tokens_of(turns),
        turns.len() == 0 ==> metric_sum(turns, Metric::Requests) == 0,
        turns.len() > 0 ==> metric_sum(turns, Metric::Requests) == metric_sum(
            turns.drop_last(),
            Metric::Requests,
        ) + turns.last().1.model_requests,
    decreases turns.len(),
{
    if turns.len() > 0 {
        law_totals_add_up(turns.drop_last());
    }
}

/// How often a name is counted.
pub open spec fn count_of(items: Seq<(Seq<char>, int)>, name: Seq<char>) -> int
    decreases items.len(),
{
    if items.len() == 0 {
        0
    } else {
        count_of(items.drop_last(), name) + if items.last().0 == name {
            items.last().1
        } else {
            0
        }
    }
}

proof fn lemma_count_update(
    items: Seq<(Seq<char>, int)>,
    i: int,
    item: (Seq<char>, int),
    name: Seq<char>,
)
    requires
        0 <= i < items.len(),
        items[i].0 == item.0,
    ensures
        count_of(items.update(i, item), name) == count_of(items, name) + if item.0 == name {
            item.1 - items[i].1
        } else {
            0
        },
    decreases items.len(),
{
    let changed = items.update(i, item);
    if i == items.len() - 1 {
        assert(changed.drop_last() =~= items.drop_last());
    } else {
        lemma_count_update(items.drop_last(), i, item, name);
        assert(changed.drop_last() =~= items.drop_last().update(i, item));
    }
}

proof fn lemma_count_raised(items: Seq<(Seq<char>, int)>, name: Seq<char>, by: int, other: Seq<char>)
    ensures
        count_of(insights::raised(items, name, by), other) == count_of(items, other) + if other
            == name {
            by
        } else {
            0
        },
{
    insights::lemma_name_from(items, name, 0);
    match insights::name_from(items, name, 0) {
        Some(i) => lemma_count_update(items, i, (name, items[i].1 + by), other),
        None => {
            assert(items.push((name, by)).drop_last() =~= items);
        },
    }
}

proof fn lemma_count_raised_all(
    items: Seq<(Seq<char>, int)>,
    names: Seq<Seq<char>>,
    other: Seq<char>,
)
    requires
        names.no_duplicates(),
    ensures
        count_of(insights::raised_all(items, names), other) == count_of(items, other)
            + if names.contains(other) {
            1int
        } else {
            0
        },
    decreases names.len(),
{
    if names.len() > 0 {
        let fewer = names.drop_last();
        assert(fewer.no_duplicates());
        lemma_count_raised_all(items, fewer, other);
        lemma_count_raised(insights::raised_all(items, fewer), names.last(), 1, other);
        if fewer.contains(other) {
            let k = choose|k: int| 0 <= k < fewer.len() && fewer[k] == other;
            assert(names[k] == other);
            assert(names[names.len() - 1] == names.last());
        }
        if names.contains(other) && names.last() != other {
            let k = choose|k: int| 0 <= k < names.len() && names[k] == other;
            assert(fewer[k] == other);
        }
        if names.last() == other {
            assert(names[names.len() - 1] == other);
        }
    }
}

/// Each text of a list once: all that are in the list, and none twice.
pub proof fn law_each_once(items: Seq<Seq<char>>, item: Seq<char>)
    ensures
        insights::once(items).contains(item) <==> items.contains(item),
        insights::once(items).no_duplicates(),
    decreases items.len(),
{
    insights::lemma_once(items);
    if items.len() > 0 {
        let fewer = items.drop_last();
        let rest = insights::once(fewer);
        let all = insights::once(items);
        law_each_once(fewer, item);
        law_each_once(fewer, items.last());
        if items.contains(item) {
            let k = choose|k: int| 0 <= k < items.len() && items[k] == item;
            if k < fewer.len() {
                assert(fewer[k] == item);
                let j = choose|j: int| 0 <= j < rest.len() && rest[j] == item;
                assert(all[j] == item);
            } else if !rest.contains(item) {
                assert(all[all.len() - 1] == item);
            }
        }
        if all.contains(item) {
            let k = choose|k: int| 0 <= k < all.len() && all[k] == item;
            if k < rest.len() {
                assert(rest[k] == item);
                let j = choose|j: int| 0 <= j < fewer.len() && fewer[j] == item;
                assert(items[j] == item);
            } else {
                assert(items[items.len() - 1] == item);
            }
        }
    }
}

/// A call of a tool counts once for the server that its name speaks of, and
/// once for each skill that it names, and for nothing else. A call that was
/// seen before counts for nothing, and its id is known from then on. Nothing
/// else of the turn changes.
pub proof fn law_calls_count_once(
    turn: ActiveFacts,
    item: JsonTree,
    skills: Seq<Seq<char>>,
    name: Seq<char>,
    id: Seq<char>,
)
    ensures
        ({
            let after = insights::after_call(turn, item, skills);
            let call_id = if item.get("call_id"@) is Some {
                item.get("call_id"@)
            } else {
                item.get("id"@)
            };
            let server = match item.get("name"@) {
                Some(JsonTree::Text(tool)) => insights::server_of(tool),
                _ => None,
            };
            let repeated = call_id matches Some(JsonTree::Text(own)) && turn.seen_call_ids.contains(
                own,
            );
            &&& repeated ==> after == turn
            &&& call_id == Some(JsonTree::Text(id)) ==> after.seen_call_ids.contains(id)
            &&& !repeated ==> {
                &&& count_of(after.mcp_calls, name) == count_of(turn.mcp_calls, name) + if server
                    == Some(name) {
                    1int
                } else {
                    0
                }
                &&& count_of(after.skill_calls, name) == count_of(turn.skill_calls, name)
                    + if skills.contains(name) {
                    1int
                } else {
                    0
                }
            }
            &&& after.turn_id == turn.turn_id
            &&& after.session_id == turn.session_id
            &&& after.started_at_ms == turn.started_at_ms
            &&& after.base_tokens == turn.base_tokens
            &&& after.last_tokens == turn.last_tokens
            &&& after.model_requests == turn.model_requests
        }),
{
    let names = insights::once(skills);
    law_each_once(skills, name);
    lemma_count_raised_all(turn.skill_calls, names, name);
    if let Some(JsonTree::Text(tool)) = item.get("name"@) {
        if let Some(server) = insights::server_of(tool) {
            lemma_count_raised(turn.mcp_calls, server, 1, name);
        }
    }
    let after = insights::after_call(turn, item, skills);
    let seen = turn.seen_call_ids;
    if item.text_of_either("call_id"@, "id"@) == Some(id) && !seen.contains(id) {
        assert(after.seen_call_ids[seen.len() as int] == id);
    }
}

/// A line that holds a call of a tool counts for the turn that is going on, and
/// where none is, for nothing. Both kinds of calls count, and no other item.
pub proof fn law_calls_count_for_the_turn_that_goes_on(
    state: CollectorFacts,
    value: JsonTree,
    stamp: Option<i64>,
    skills: Seq<Seq<char>>,
)
    requires
        value.get("type"@) == Some(JsonTree::Text("response_item"@)),
    ensures
        ({
            let payload = if value.get("payload"@) is Some {
                value.get("payload"@)->0
            } else {
                JsonTree::Null
            };
            let item = if payload.get("payload"@) is Some {
                payload.get("payload"@)->0
            } else {
                payload
            };
            let after = insights::after_value(state, value, stamp, skills);
            let call = item.get("type"@) == Some(JsonTree::Text("custom_tool_call"@)) || item.get(
                "type"@,
            ) == Some(JsonTree::Text("function_call"@));
            &&& after.turns == state.turns
            &&& after.session_id == state.session_id
            &&& after.latest_tokens == state.latest_tokens
            &&& call ==> match state.active {
                Some(turn) => after.active == Some(insights::after_call(turn, item, skills)),
                None => after.active is None,
            }
            &&& !call ==> after.active == state.active
        }),
{
    lemma_names_of_messages();
}

/// The session of a log is the one that it names last, and before that it goes
/// by its path; nothing but a line of that kind names it.
pub proof fn law_session_of_a_log(
    state: CollectorFacts,
    path: Seq<char>,
    value: JsonTree,
    stamp: Option<i64>,
    skills: Seq<Seq<char>>,
)
    ensures
        insights::at_file(state, path).session_id == path,
        insights::at_file(state, path).active is None,
        insights::at_file(state, path).turns == state.turns,
        insights::at_file(state, path).latest_tokens == (TokenSnapshot {
            input: 0,
            cached_input: 0,
            output: 0,
        }),
        ({
            let after = insights::after_value(state, value, stamp, skills);
            let id = match value.get("payload"@) {
                Some(payload) => if payload.get("id"@) is Some {
                    payload.get("id"@)
                } else {
                    payload.get("thread_id"@)
                },
                None => None,
            };
            &&& value.get("type"@) == Some(JsonTree::Text("session_meta"@)) ==> {
                &&& after.session_id == (match id {
                    Some(JsonTree::Text(own)) => own,
                    _ => state.session_id,
                })
                &&& after.active == state.active
                &&& after.turns == state.turns
            }
            &&& value.get("type"@) != Some(JsonTree::Text("session_meta"@)) ==> after.session_id
                == state.session_id
        }),
{
    lemma_names_of_messages();
}

/// A tool's name speaks of a server between `mcp__` and the next `__`; a name
/// that does not begin so speaks of none.
pub proof fn law_names_of_servers(server: Seq<char>, tool: Seq<char>, other: Seq<char>)
    requires
        server.len() > 0,
        !text::has(server + "_"@, "__"@),
        !text::begins(other, "mcp__"@),
    ensures
        insights::server_of("mcp__"@ + server + "__"@ + tool) == Some(server),
        insights::server_of("mcp__"@ + server) == Some(server),
        insights::server_of("mcp__"@ + "__"@ + tool) is None,
        insights::server_of(other) is None,
{
    lemma_server_is_parted(server, tool);
    lemma_server_alone(server);
    lemma_no_server(tool);
    text::law_strip(server + "__"@ + tool, "mcp__"@);
    text::law_strip(server, "mcp__"@);
    text::law_strip("__"@ + tool, "mcp__"@);
    assert("mcp__"@ + (server + "__"@ + tool) =~= "mcp__"@ + server + "__"@ + tool);
    assert("mcp__"@ + ("__"@ + tool) =~= "mcp__"@ + "__"@ + tool);
}

proof fn lemma_parted_at(s: Seq<char>, mark: Seq<char>, at: int)
    requires
        text::occurs_at(s, mark, at),
        forall|j: int| 0 <= j < at ==> !text::occurs_at(s, mark, j),
    ensures
        text::parted(s, mark) == Some(
            (s.subrange(0, at), s.subrange(at + mark.len(), s.len() as int)),
        ),
{
    text::law_found(s, mark);
}

proof fn lemma_first_pair(server: Seq<char>, c: char, tool: Seq<char>, j: int)
    requires
        0 <= j < server.len(),
        !text::occurs_at(server.push(c), seq![c, c], j),
    ensures
        !text::occurs_at(server + seq![c, c] + tool, seq![c, c], j),
{
    let near = server.push(c);
    let rest = server + seq![c, c] + tool;
    assert(near.subrange(j, j + 2) =~= rest.subrange(j, j + 2));
}

proof fn lemma_server_is_parted(server: Seq<char>, tool: Seq<char>)
    requires
        !text::has(server + "_"@, "__"@),
    ensures
        text::parted(server + "__"@ + tool, "__"@) == Some((server, tool)),
{
    let mark = "__"@;
    let near = server + "_"@;
    let rest = server + mark + tool;
    let at = server.len() as int;
    assert(mark =~= seq!['_', '_'] && "_"@ =~= seq!['_']) by {
        reveal_strlit("__");
        reveal_strlit("_");
    }
    assert(near =~= server.push('_'));
    text::law_found(near, mark);
    assert(rest.subrange(at, at + 2) =~= mark);
    assert(text::occurs_at(rest, mark, at));
    assert forall|j: int| 0 <= j < at implies !text::occurs_at(rest, mark, j) by {
        assert(!text::occurs_at(near, mark, j));
        lemma_first_pair(server, '_', tool, j);
    }
    lemma_parted_at(rest, mark, at);
    assert(rest.subrange(0, at) =~= server);
    assert(rest.subrange(at + 2, rest.len() as int) =~= tool);
}

proof fn lemma_server_alone(server: Seq<char>)
    requires
        !text::has(server + "_"@, "__"@),
    ensures
        text::parted(server, "__"@) is None,
{
    reveal_strlit("__");
    reveal_strlit("_");
    let mark = "__"@;
    let near = server + "_"@;
    text::lemma_found_from(server, mark, 0);
    text::lemma_found_from(near, mark, 0);
    assert forall|j: int| 0 <= j implies !text::occurs_at(server, mark, j) by {
        if text::occurs_at(server, mark, j) {
            assert(near.subrange(j, j + 2) =~= server.subrange(j, j + 2));
            assert(text::occurs_at(near, mark, j));
        }
    }
}

proof fn lemma_no_server(tool: Seq<char>)
    ensures
        text::parted("__"@ + tool, "__"@) == Some((Seq::<char>::empty(), tool)),
{
    let mark = "__"@;
    let bare = mark + tool;
    text::lemma_found_from(bare, mark, 0);
    assert(bare.subrange(0, mark.len() as int) =~= mark);
    assert(text::occurs_at(bare, mark, 0));
    assert(text::found(bare, mark) == Some(0int));
    assert(bare.subrange(0, 0) =~= Seq::<char>::empty());
    assert(bare.subrange(mark.len() as int, bare.len() as int) =~= tool);
}

/// A copy of a turn takes the place of one that is there where, and only where,
/// it tells of more requests or of more calls of servers; a turn that is not
/// there yet is added behind the others.
pub proof fn law_fuller_copy_counts(
    turns: Seq<(Seq<char>, CompletedFacts)>,
    id: Seq<char>,
    turn: CompletedFacts,
    i: int,
)
    requires
        ids_apart(turns),
    ensures
        ({
            let after = insights::with_completed(turns, id, turn);
            &&& (forall|k: int| 0 <= k < turns.len() ==> (#[trigger] turns[k]).0 != id) ==> after
                == turns.push((id, turn))
            &&& 0 <= i < turns.len() && turns[i].0 == id ==> {
                let more = turn.model_requests > turns[i].1.model_requests || insights::total(
                    turn.mcp_calls,
                ) > insights::total(turns[i].1.mcp_calls);
                &&& more ==> after == turns.update(i, (id, turn))
                &&& !more ==> after == turns
            }
        }),
{
    lemma_turn_from(turns, id, 0);
}

/// All counts of a list added up.
pub proof fn law_total_adds_up(items: Seq<(Seq<char>, int)>, item: (Seq<char>, int))
    ensures
        insights::total(Seq::empty()) == 0,
        insights::total(items.push(item)) == insights::total(items) + item.1,
{
    assert(items.push(item).drop_last() =~= items);
}

proof fn lemma_count_merged(
    target: Seq<(Seq<char>, int)>,
    source: Seq<(Seq<char>, int)>,
    name: Seq<char>,
)
    ensures
        count_of(merged(target, source), name) == count_of(target, name) + count_of(source, name),
    decreases source.len(),
{
    if source.len() > 0 {
        lemma_count_merged(target, source.drop_last(), name);
        lemma_count_raised(
            merged(target, source.drop_last()),
            source.last().0,
            source.last().1,
            name,
        );
    }
}

/// How often the turns call a server or a skill, turn by turn.
pub open spec fn called(turns: Seq<(Seq<char>, CompletedFacts)>, name: Seq<char>) -> (int, int)
    decreases turns.len(),
{
    if turns.len() == 0 {
        (0, 0)
    } else {
        let rest = called(turns.drop_last(), name);
        let turn = turns.last().1;
        (
            rest.0 + count_of(turn.mcp_calls, name),
            rest.1 + count_of(turn.skill_calls, name),
        )
    }
}

proof fn lemma_called(turns: Seq<(Seq<char>, CompletedFacts)>, name: Seq<char>)
    ensures
        called(turns, name) == (
            count_of(all_calls(turns, Calls::Mcp), name),
            count_of(all_calls(turns, Calls::Skill), name),
        ),
    decreases turns.len(),
{
    if turns.len() > 0 {
        let fewer = turns.drop_last();
        lemma_called(fewer, name);
        lemma_count_merged(all_calls(fewer, Calls::Mcp), turns.last().1.mcp_calls, name);
        lemma_count_merged(all_calls(fewer, Calls::Skill), turns.last().1.skill_calls, name);
    }
}

proof fn lemma_count_placed(
    items: Seq<(Seq<char>, int)>,
    item: (Seq<char>, int),
    name: Seq<char>,
)
    ensures
        count_of(placed(items, item), name) == count_of(items, name) + if item.0 == name {
            item.1
        } else {
            0
        },
    decreases items.len(),
{
    if items.len() > 0 && listed_before(item, items.last()) {
        lemma_count_placed(items.drop_last(), item, name);
        let front = placed(items.drop_last(), item);
        assert(front.push(items.last()).drop_last() =~= front);
    } else {
        assert(items.push(item).drop_last() =~= items);
    }
}

proof fn lemma_count_listed(items: Seq<(Seq<char>, int)>, name: Seq<char>)
    ensures
        count_of(listed(items), name) == count_of(items, name),
    decreases items.len(),
{
    if items.len() > 0 {
        lemma_count_listed(items.drop_last(), name);
        lemma_count_placed(listed(items.drop_last()), items.last(), name);
    }
}

/// The calls that are listed are those of all turns: every server and every
/// skill as often as the turns call it together, the most called first, and
/// those of one count in the order of their names.
pub proof fn law_listed_calls_are_those_of_all_turns(
    turns: Seq<(Seq<char>, CompletedFacts)>,
    name: Seq<char>,
    i: int,
    j: int,
)
    ensures
        ({
            let servers = listed(all_calls(turns, Calls::Mcp));
            let skills = listed(all_calls(turns, Calls::Skill));
            &&& (count_of(servers, name), count_of(skills, name)) == called(turns, name)
            &&& 0 <= i < j < servers.len() ==> servers[i].1 > servers[j].1 || (servers[i].1
                == servers[j].1 && !text::text_before(servers[j].0, servers[i].0))
            &&& 0 <= i < j < skills.len() ==> skills[i].1 > skills[j].1 || (skills[i].1
                == skills[j].1 && !text::text_before(skills[j].0, skills[i].0))
        }),
{
    let servers = all_calls(turns, Calls::Mcp);
    let skills = all_calls(turns, Calls::Skill);
    lemma_called(turns, name);
    lemma_count_listed(servers, name);
    lemma_count_listed(skills, name);
    law_listed(servers);
    law_listed(skills);
    if 0 <= i < j < listed(servers).len() {
        assert(!listed_before(listed(servers)[j], listed(servers)[i]));
    }
    if 0 <= i < j < listed(skills).len() {
        assert(!listed_before(listed(skills)[j], listed(skills)[i]));
    }
}

/// The time that turns span reaches from the beginning of the first to the end
/// of the last, where no bound of the window is given.
pub proof fn law_span_of_turns(turns: Seq<(Seq<char>, CompletedFacts)>, i: int)
    requires
        0 <= i < turns.len(),
    ensures
        first_start(turns) <= turns[i].1.started_at_ms,
        last_end(turns) >= turns[i].1.completed_at_ms,
        exists|k: int|
            0 <= k < turns.len() && (#[trigger] turns[k]).1.started_at_ms == first_start(turns),
        exists|k: int|
            0 <= k < turns.len() && (#[trigger] turns[k]).1.completed_at_ms == last_end(turns),
    decreases turns.len(),
{
    if turns.len() == 1 {
        assert(turns[0].1.started_at_ms == first_start(turns));
        assert(turns[0].1.completed_at_ms == last_end(turns));
    } else {
        let fewer = turns.drop_last();
        let last = turns.len() - 1;
        law_span_of_turns(fewer, if i < last { i } else { 0 });
        if i < last {
            assert(fewer[i] == turns[i]);
        }
        let a = choose|k: int|
            0 <= k < fewer.len() && (#[trigger] fewer[k]).1.started_at_ms == first_start(fewer);
        let b = choose|k: int|
            0 <= k < fewer.len() && (#[trigger] fewer[k]).1.completed_at_ms == last_end(fewer);
        assert(turns[a] == fewer[a] && turns[b] == fewer[b]);
        assert(turns[last] == turns.last());
    }
}

/// The totals over turns are those of the turns: how many they are, of how many
/// sessions, all that they count, and the time of the window, or else the time
/// that they span.
pub proof fn law_totals_are_of_the_turns(
    totals: TurnTotals,
    turns: Seq<(Seq<char>, CompletedFacts)>,
    start_ms: Option<i64>,
    end_ms: Option<i64>,
    i: int,
)
    requires
        sums_up(totals, turns, start_ms, end_ms),
    ensures
        totals.completed_turns == turns.len(),
        (
            totals.input_tokens as int,
            totals.cached_input_tokens as int,
            totals.output_tokens as int,
        ) == tokens_of(turns),
        totals.session_count == insights::once(
            Seq::new(turns.len(), |k: int| turns[k].1.session_id),
        ).len(),
        start_ms matches Some(start) ==> (end_ms matches Some(end) ==> totals.observed_ms == end
            - start),
        start_ms is None && end_ms is None ==> totals.observed_ms == last_end(turns) - first_start(
            turns,
        ),
        start_ms matches Some(start) ==> (end_ms is None ==> totals.observed_ms == last_end(turns)
            - start),
        end_ms matches Some(end) ==> (start_ms is None ==> totals.observed_ms == end - first_start(
            turns,
        )),
        totals.durations_ms@.len() == turns.len(),
        totals.ttfts_ms@.len() == turns.len(),
        0 <= i < turns.len() ==> totals.durations_ms@[i] == turns[i].1.duration_ms
            && totals.ttfts_ms@[i] == turns[i].1.ttft_ms,
{
    law_totals_add_up(turns);
    assert(sessions(turns) =~= Seq::new(turns.len(), |k: int| turns[k].1.session_id));
}

/// A log is looked at where it was changed no more than a day before the window
/// begins, and without a window in any case.
pub proof fn law_recent_logs(modified: u64, start: i64)
    ensures
        insights::recent(Some(modified), None),
        insights::recent(None, None),
        insights::recent(Some(modified), Some(start)) <==> modified + 86400 >= start,
        !insights::recent(None, Some(start)),
{
}

/// The skills that an event names are looked for in the `input` of its item,
/// or else in the `arguments`; the item is the payload, or the payload within
/// the payload.
pub proof fn law_where_skills_are_named(value: JsonTree, payload: JsonTree, item: JsonTree)
    requires
        value.get("payload"@) == Some(payload),
        payload.get("payload"@) == Some(item) || (payload.get("payload"@) is None && item
            == payload),
    ensures
        item.get("input"@) matches Some(input) ==> (input matches JsonTree::Text(said)
            ==> insights::skills_of(value) == insights::skills_in(said)),
        item.get("input"@) is None ==> (item.get("arguments"@) matches Some(JsonTree::Text(said))
            ==> insights::skills_of(value) == insights::skills_in(said)),
        item.get("input"@) is None && item.get("arguments"@) is None ==> insights::skills_of(
            value,
        ).len() == 0,
{
}

/// The skills that a text names are the directories right above a `SKILL.md`
/// and right below a `skills`, in the order in which the text has them; a text
/// that cannot be searched names none.
pub proof fn law_skills_are_named_by_their_paths(
    said: Seq<char>,
    groups: Seq<Option<Seq<char>>>,
    group: Option<Seq<char>>,
)
    ensures
        insights::first_groups("(?:^|[/\\\\])skills[/\\\\]([^/\\\\]+)[/\\\\]SKILL\\.md"@, said) == Some(
            groups.push(group),
        ) ==> match group {
            Some(name) => insights::skills_in(said).len() > 0 && insights::skills_in(said).last()
                == name && insights::skills_in(said).drop_last() == insights::present(groups),
            None => insights::skills_in(said) == insights::present(groups),
        },
        insights::first_groups("(?:^|[/\\\\])skills[/\\\\]([^/\\\\]+)[/\\\\]SKILL\\.md"@, said)
            is None ==> insights::skills_in(said).len() == 0,
        insights::present(groups.push(group)) == match group {
            Some(name) => insights::present(groups).push(name),
            None => insights::present(groups),
        },
        insights::present(Seq::empty()).len() == 0,
{
    assert(groups.push(group).drop_last() =~= groups);
}

} // verus!
