//! Which daily model each turn of a group belongs to.

use vstd::prelude::*;
use crate::cindy;
use crate::cindy::{CindyBillingKind, CindyCost, CindyTokenBuckets, CindyTurnUsage, Tokens};
use crate::text;

verus! {

/// The daily total of one model, under the name that Cindy gives it.
#[derive(Debug)]
pub struct CindySourceModel {
    pub model: String,
    pub tokens: CindyTokenBuckets,
    pub costs: Vec<CindyCost>,
}

/// What is known of the day of one model.
pub struct SourceTotal {
    pub model: Seq<char>,
    pub tokens: Tokens,
    pub costs: Seq<CindyCost>,
}

impl View for CindySourceModel {
    type V = SourceTotal;

    open spec fn view(&self) -> SourceTotal {
        SourceTotal { model: self.model@, tokens: self.tokens@, costs: self.costs@ }
    }
}

/// What is known of the models of a day.
pub open spec fn totals(models: Seq<CindySourceModel>) -> Seq<SourceTotal> {
    models.map_values(|m: CindySourceModel| m@)
}

/// The positions of the models that are paid for as `kind`.
pub open spec fn billed(models: Seq<SourceTotal>, kind: CindyBillingKind) -> Seq<int>
    decreases models.len(),
{
    if models.len() == 0 {
        Seq::empty()
    } else {
        let rest = billed(models.drop_last(), kind);
        if cindy::billing_kind(models.last().model) == Some(kind) {
            rest.push(models.len() - 1)
        } else {
            rest
        }
    }
}

/// The one item of a list that holds one.
pub open spec fn sole(items: Seq<int>) -> Option<int> {
    if items.len() == 1 {
        Some(items[0])
    } else {
        None
    }
}

/// The model that a turn names by how it was paid for, if there is just one.
pub open spec fn hinted(models: Seq<SourceTotal>, turn: CindyTurnUsage) -> Option<int> {
    match turn.billing_hint {
        Some(kind) => sole(billed(models, kind)),
        None => None,
    }
}

/// The models that the turns name.
pub open spec fn hints(models: Seq<SourceTotal>, turns: Seq<CindyTurnUsage>) -> Seq<
    Option<int>,
> {
    Seq::new(turns.len(), |i: int| hinted(models, turns[i]))
}

/// The tokens of the turns that are picked for `model`.
pub open spec fn share(
    turns: Seq<CindyTurnUsage>,
    picks: Seq<Option<int>>,
    model: Option<int>,
) -> Tokens
    decreases turns.len(),
{
    if turns.len() == 0 {
        Tokens::none()
    } else {
        let rest = share(turns.drop_last(), picks.drop_last(), model);
        if picks.last() == model {
            rest.plus(cindy::turn_tokens(turns.last()))
        } else {
            rest
        }
    }
}

/// Every turn that says how it was paid for names just one model.
pub open spec fn clear(models: Seq<SourceTotal>, turns: Seq<CindyTurnUsage>) -> bool {
    forall|i: int|
        0 <= i < turns.len() && (#[trigger] turns[i]).billing_hint is Some ==> hinted(
            models,
            turns[i],
        ) is Some
}

/// Some pick is for `model`.
pub open spec fn picked(picks: Seq<Option<int>>, model: int) -> bool {
    exists|i: int| 0 <= i < picks.len() && #[trigger] picks[i] == Some(model)
}

/// No model is given more tokens by the turns that name it than its total has.
pub open spec fn hints_fit(models: Seq<SourceTotal>, turns: Seq<CindyTurnUsage>) -> bool {
    forall|m: int|
        0 <= m < models.len() && picked(hints(models, turns), m) ==> share(
            turns,
            hints(models, turns),
            Some(m),
        ).held().within((#[trigger] models[m]).tokens)
}

/// What the turns that name `m` leave of its total is what the other turns
/// need.
pub open spec fn leaves_room(
    models: Seq<SourceTotal>,
    turns: Seq<CindyTurnUsage>,
    m: int,
) -> bool {
    let covered = share(turns, hints(models, turns), Some(m)).held();
    &&& covered.within(models[m].tokens)
    &&& models[m].tokens.minus(covered) == share(turns, hints(models, turns), None).held()
}

/// The positions before `upto` of the models that leave room for just the
/// turns that name none.
pub open spec fn with_room(
    models: Seq<SourceTotal>,
    turns: Seq<CindyTurnUsage>,
    upto: int,
) -> Seq<int>
    decreases upto,
{
    if upto <= 0 {
        Seq::empty()
    } else {
        let rest = with_room(models, turns, upto - 1);
        if leaves_room(models, turns, upto - 1) {
            rest.push(upto - 1)
        } else {
            rest
        }
    }
}

/// No two turns have one request id.
pub open spec fn distinct_ids(turns: Seq<CindyTurnUsage>) -> bool {
    forall|i: int, j: int|
        0 <= i < j < turns.len() ==> (#[trigger] turns[i]).request_id@ != (
        #[trigger] turns[j]).request_id@
}

/// Every turn says how it was paid for.
pub open spec fn all_hinted(turns: Seq<CindyTurnUsage>) -> bool {
    forall|i: int| 0 <= i < turns.len() ==> (#[trigger] turns[i]).billing_hint is Some
}

/// The picks of the turns, where those that name no model are given to `rest`.
pub open spec fn picks_with(
    models: Seq<SourceTotal>,
    turns: Seq<CindyTurnUsage>,
    rest: int,
) -> Seq<int> {
    Seq::new(
        turns.len(),
        |i: int|
            match hinted(models, turns[i]) {
                Some(m) => m,
                None => rest,
            },
    )
}

/// The model of each turn of a group, where the turns can be told apart and
/// fit the daily totals.
pub open spec fn assigned(models: Seq<SourceTotal>, turns: Seq<CindyTurnUsage>) -> Option<
    Seq<int>,
> {
    if models.len() == 0 {
        None
    } else if models.len() == 1 {
        let all = Seq::new(turns.len(), |i: int| Some(0int));
        if share(turns, all, Some(0)).held().within(models[0].tokens) {
            Some(Seq::new(turns.len(), |i: int| 0int))
        } else {
            None
        }
    } else if !clear(models, turns) || !hints_fit(models, turns) || !distinct_ids(turns) {
        None
    } else if all_hinted(turns) {
        Some(picks_with(models, turns, 0))
    } else {
        match sole(with_room(models, turns, models.len() as int)) {
            Some(m) => Some(picks_with(models, turns, m)),
            None => None,
        }
    }
}

/// The view of positions.
pub open spec fn positions(r: Vec<usize>) -> Seq<int> {
    r@.map_values(|i: usize| i as int)
}

/// The view of an optional position.
pub open spec fn opt_position(r: Option<usize>) -> Option<int> {
    match r {
        Some(i) => Some(i as int),
        None => None,
    }
}

/// The view of picks.
pub open spec fn opt_positions(r: Vec<Option<usize>>) -> Seq<Option<int>> {
    r@.map_values(|i: Option<usize>| opt_position(i))
}

proof fn lemma_billed(models: Seq<SourceTotal>, kind: CindyBillingKind)
    ensures
        forall|k: int|
            0 <= k < billed(models, kind).len() ==> 0 <= #[trigger] billed(models, kind)[k]
                < models.len(),
    decreases models.len(),
{
    if models.len() > 0 {
        lemma_billed(models.drop_last(), kind);
        let rest = billed(models.drop_last(), kind);
        assert forall|k: int| 0 <= k < billed(models, kind).len() implies 0 <= #[trigger] billed(
            models,
            kind,
        )[k] < models.len() by {
            assert(k < rest.len() ==> 0 <= rest[k] < models.len() - 1);
        }
    }
}

/// The one model that is paid for as `kind`.
fn only_billed(models: &Vec<CindySourceModel>, kind: CindyBillingKind) -> (r: Option<usize>)
    ensures
        opt_position(r) == sole(billed(totals(models@), kind)),
        r matches Some(m) ==> m < models@.len(),
{
    let mut found: Option<usize> = None;
    let mut several = false;
    let mut i: usize = 0;
    while i < models.len()
        invariant
            i <= models@.len(),
            several == (billed(totals(models@).take(i as int), kind).len() > 1),
            !several ==> opt_position(found) == sole(billed(totals(models@).take(i as int), kind)),
            !several && found is None ==> billed(totals(models@).take(i as int), kind).len() == 0,
        decreases models@.len() - i,
    {
        assert(totals(models@).take(i + 1).drop_last() =~= totals(models@).take(i as int));
        if cindy::cindy_billing_kind_from_model(models[i].model.as_str()) == Some(kind) {
            if found.is_some() {
                several = true;
            } else {
                found = Some(i);
            }
        }
        i += 1;
    }
    assert(totals(models@).take(models@.len() as int) =~= totals(models@));
    proof {
        lemma_billed(totals(models@), kind);
    }
    if several {
        None
    } else {
        found
    }
}

/// A share has no count below zero.
proof fn lemma_share_counts(
    turns: Seq<CindyTurnUsage>,
    picks: Seq<Option<int>>,
    model: Option<int>,
)
    ensures
        Tokens::none().within(share(turns, picks, model)),
    decreases turns.len(),
{
    if turns.len() > 0 {
        lemma_share_counts(turns.drop_last(), picks.drop_last(), model);
    }
}

/// The tokens of the turns that are picked for `model`.
fn share_of(
    turns: &Vec<CindyTurnUsage>,
    picks: &Vec<Option<usize>>,
    model: Option<usize>,
) -> (r: CindyTokenBuckets)
    requires
        turns@.len() == picks@.len(),
    ensures
        r@ == share(turns@, opt_positions(*picks), opt_position(model)).held(),
        Tokens::none().within(r@),
{
    let mut tokens = CindyTokenBuckets::none();
    let mut i: usize = 0;
    let ghost all = opt_positions(*picks);
    let ghost wanted = opt_position(model);
    while i < turns.len()
        invariant
            i <= turns@.len(),
            turns@.len() == picks@.len(),
            all == opt_positions(*picks),
            wanted == opt_position(model),
            tokens@ == share(turns@.take(i as int), all.take(i as int), wanted).held(),
        decreases turns@.len() - i,
    {
        proof {
            assert(turns@.take(i + 1).drop_last() =~= turns@.take(i as int));
            assert(all.take(i + 1).drop_last() =~= all.take(i as int));
            lemma_share_counts(turns@.take(i as int), all.take(i as int), wanted);
        }
        let mine = match (picks[i], model) {
            (Some(a), Some(b)) => a == b,
            (None, None) => true,
            _ => false,
        };
        if mine {
            tokens.add_assign(CindyTokenBuckets::from_turn(&turns[i]));
        }
        i += 1;
    }
    proof {
        assert(turns@.take(turns@.len() as int) =~= turns@);
        assert(all.take(turns@.len() as int) =~= all);
        lemma_share_counts(turns@, all, wanted);
    }
    tokens
}

/// Whether some pick is for `model`.
fn is_picked(picks: &Vec<Option<usize>>, model: usize) -> (r: bool)
    ensures
        r == picked(opt_positions(*picks), model as int),
{
    let ghost all = opt_positions(*picks);
    let mut i: usize = 0;
    while i < picks.len()
        invariant
            i <= picks@.len(),
            all == opt_positions(*picks),
            forall|k: int| 0 <= k < i ==> #[trigger] all[k] != Some(model as int),
        decreases picks@.len() - i,
    {
        assert(all[i as int] == opt_position(picks@[i as int]));
        if let Some(m) = picks[i] {
            if m == model {
                return true;
            }
        }
        i += 1;
    }
    false
}

/// Whether no two turns have one request id.
pub fn has_distinct_ids(turns: &Vec<CindyTurnUsage>) -> (r: bool)
    ensures
        r == distinct_ids(turns@),
{
    let mut i: usize = 0;
    while i < turns.len()
        invariant
            i <= turns@.len(),
            forall|a: int, b: int|
                0 <= a < b < turns@.len() && a < i ==> (#[trigger] turns@[a]).request_id@ != (
                #[trigger] turns@[b]).request_id@,
        decreases turns@.len() - i,
    {
        let mut j: usize = i + 1;
        while j < turns.len()
            invariant
                i < j <= turns@.len(),
                forall|b: int|
                    i < b < j ==> turns@[i as int].request_id@ != (
                    #[trigger] turns@[b]).request_id@,
            decreases turns@.len() - j,
        {
            if text::same_text(turns[i].request_id.as_str(), turns[j].request_id.as_str()) {
                return false;
            }
            j += 1;
        }
        i += 1;
    }
    true
}

/// The models that the turns name; nothing where one of them is not clear.
fn clear_hints(models: &Vec<CindySourceModel>, turns: &Vec<CindyTurnUsage>) -> (r: Option<
    Vec<Option<usize>>,
>)
    ensures
        r is Some == clear(totals(models@), turns@),
        r matches Some(picks) ==> {
            &&& opt_positions(picks) == hints(totals(models@), turns@)
            &&& forall|i: int|
                0 <= i < picks@.len() && (#[trigger] picks@[i]) is Some ==> picks@[i]->0
                    < models@.len()
        },
{
    let mut picks: Vec<Option<usize>> = Vec::new();
    let mut i: usize = 0;
    while i < turns.len()
        invariant
            i <= turns@.len(),
            picks@.len() == i,
            forall|k: int|
                0 <= k < i ==> opt_position(#[trigger] picks@[k]) == hinted(totals(models@), turns@[k]),
            forall|k: int|
                0 <= k < i && (#[trigger] turns@[k]).billing_hint is Some ==> hinted(
                    totals(models@),
                    turns@[k],
                ) is Some,
            forall|k: int|
                0 <= k < i && (#[trigger] picks@[k]) is Some ==> picks@[k]->0 < models@.len(),
        decreases turns@.len() - i,
    {
        let pick: Option<usize> = match turns[i].billing_hint {
            None => None,
            Some(kind) => match only_billed(models, kind) {
                Some(m) => Some(m),
                None => {
                    assert(turns@[i as int].billing_hint is Some);
                    return None;
                },
            },
        };
        picks.push(pick);
        i += 1;
    }
    assert(opt_positions(picks) =~= hints(totals(models@), turns@));
    Some(picks)
}

/// The picks, where those that name no model are given to `rest`.
fn completed_picks(picks: &Vec<Option<usize>>, rest: usize) -> (r: Vec<usize>)
    ensures
        r@.len() == picks@.len(),
        forall|i: int|
            0 <= i < r@.len() ==> #[trigger] r@[i] == (match picks@[i] {
                Some(m) => m,
                None => rest,
            }),
{
    let mut out: Vec<usize> = Vec::new();
    let mut i: usize = 0;
    while i < picks.len()
        invariant
            i <= picks@.len(),
            out@.len() == i,
            forall|k: int|
                0 <= k < i ==> #[trigger] out@[k] == (match picks@[k] {
                    Some(m) => m,
                    None => rest,
                }),
        decreases picks@.len() - i,
    {
        let m: usize = match picks[i] {
            Some(m) => m,
            None => rest,
        };
        out.push(m);
        i += 1;
    }
    out
}

/// The one model that leaves room for just the turns that name none.
fn only_with_room(
    models: &Vec<CindySourceModel>,
    turns: &Vec<CindyTurnUsage>,
    picks: &Vec<Option<usize>>,
) -> (r: Option<usize>)
    requires
        opt_positions(*picks) == hints(totals(models@), turns@),
    ensures
        opt_position(r) == sole(with_room(totals(models@), turns@, models@.len() as int)),
        r matches Some(m) ==> m < models@.len(),
{
    assert(opt_positions(*picks).len() == picks@.len());
    let rest = share_of(turns, picks, None);
    let mut found: Option<usize> = None;
    let mut several = false;
    let mut i: usize = 0;
    while i < models.len()
        invariant
            i <= models@.len(),
            turns@.len() == picks@.len(),
            opt_positions(*picks) == hints(totals(models@), turns@),
            rest@ == share(turns@, hints(totals(models@), turns@), None).held(),
            several == (with_room(totals(models@), turns@, i as int).len() > 1),
            !several ==> opt_position(found) == sole(with_room(totals(models@), turns@, i as int)),
            !several && found is None ==> with_room(totals(models@), turns@, i as int).len() == 0,
            found matches Some(m) ==> m < models@.len(),
        decreases models@.len() - i,
    {
        let covered = share_of(turns, picks, Some(i));
        let tokens = models[i].tokens;
        if covered.fits_within(tokens) && tokens.subtract(covered) == rest {
            if found.is_some() {
                several = true;
            } else {
                found = Some(i);
            }
        }
        i += 1;
    }
    if several {
        None
    } else {
        found
    }
}

/// The position of each turn's model. There is none where the daily models
/// and the turns do not settle it beyond doubt, or where the turns hold more
/// tokens than a daily total.
pub fn assign_cindy_turn_models(
    models: &Vec<CindySourceModel>,
    turns: &Vec<CindyTurnUsage>,
) -> (r: Option<Vec<usize>>)
    ensures
        match r {
            Some(picks) => assigned(totals(models@), turns@) == Some(positions(picks)),
            None => assigned(totals(models@), turns@) is None,
        },
        r matches Some(picks) ==> forall|i: int|
            0 <= i < picks@.len() ==> #[trigger] picks@[i] < models@.len(),
{
    if models.len() == 0 {
        return None;
    }
    if models.len() == 1 {
        let mut all: Vec<Option<usize>> = Vec::new();
        let mut zeros: Vec<usize> = Vec::new();
        let mut i: usize = 0;
        while i < turns.len()
            invariant
                i <= turns@.len(),
                all@.len() == i,
                zeros@.len() == i,
                forall|k: int| 0 <= k < i ==> #[trigger] all@[k] == Some(0usize),
                forall|k: int| 0 <= k < i ==> #[trigger] zeros@[k] == 0,
            decreases turns@.len() - i,
        {
            all.push(Some(0));
            zeros.push(0);
            i += 1;
        }
        assert(opt_positions(all) =~= Seq::new(turns@.len(), |i: int| Some(0int)));
        assert(positions(zeros) =~= Seq::new(turns@.len(), |i: int| 0int));
        let tokens = share_of(turns, &all, Some(0));
        if !tokens.fits_within(models[0].tokens) {
            return None;
        }
        return Some(zeros);
    }
    let picks = match clear_hints(models, turns) {
        Some(picks) => picks,
        None => return None,
    };
    assert(opt_positions(picks).len() == picks@.len());
    let mut m: usize = 0;
    while m < models.len()
        invariant
            m <= models@.len(),
            models@.len() > 1,
            turns@.len() == picks@.len(),
            opt_positions(picks) == hints(totals(models@), turns@),
            forall|k: int|
                0 <= k < m && picked(hints(totals(models@), turns@), k) ==> share(
                    turns@,
                    hints(totals(models@), turns@),
                    Some(k),
                ).held().within((#[trigger] totals(models@)[k]).tokens),
        decreases models@.len() - m,
    {
        let covered = share_of(turns, &picks, Some(m));
        if is_picked(&picks, m) && !covered.fits_within(models[m].tokens) {
            assert(!covered@.within(totals(models@)[m as int].tokens));
            return None;
        }
        m += 1;
    }
    if !has_distinct_ids(turns) {
        return None;
    }
    let mut open = false;
    let mut i: usize = 0;
    while i < turns.len()
        invariant
            i <= turns@.len(),
            open == !(forall|k: int|
                0 <= k < i ==> (#[trigger] turns@[k]).billing_hint is Some),
        decreases turns@.len() - i,
    {
        if turns[i].billing_hint.is_none() {
            open = true;
        }
        i += 1;
    }
    let rest: usize = if open {
        match only_with_room(models, turns, &picks) {
            Some(m) => m,
            None => return None,
        }
    } else {
        0
    };
    let out = completed_picks(&picks, rest);
    proof {
        let expected = picks_with(totals(models@), turns@, rest as int);
        assert forall|k: int| 0 <= k < out@.len() implies positions(out)[k] == expected[k] by {
            assert(opt_positions(picks)[k] == hinted(totals(models@), turns@[k]));
            assert(out@[k] == out@[k]);
        }
        assert(positions(out) =~= expected);
    }
    Some(out)
}

/// The picks as options.
pub open spec fn definite(picks: Seq<int>) -> Seq<Option<int>> {
    Seq::new(picks.len(), |i: int| Some(picks[i]))
}

/// Giving the turns that name no model to `rest` adds just their tokens to
/// the share of `rest`.
proof fn lemma_completed_share(
    models: Seq<SourceTotal>,
    turns: Seq<CindyTurnUsage>,
    rest: int,
    m: int,
)
    ensures
        share(turns, definite(picks_with(models, turns, rest)), Some(m)) == if m == rest {
            share(turns, hints(models, turns), Some(m)).plus(
                share(turns, hints(models, turns), None),
            )
        } else {
            share(turns, hints(models, turns), Some(m))
        },
    decreases turns.len(),
{
    if turns.len() > 0 {
        let fewer = turns.drop_last();
        lemma_completed_share(models, fewer, rest, m);
        assert(definite(picks_with(models, turns, rest)).drop_last() =~= definite(
            picks_with(models, fewer, rest),
        ));
        assert(hints(models, turns).drop_last() =~= hints(models, fewer));
    }
}

proof fn lemma_nothing_picked(
    turns: Seq<CindyTurnUsage>,
    picks: Seq<Option<int>>,
    m: Option<int>,
)
    requires
        picks.len() == turns.len(),
        forall|i: int| 0 <= i < picks.len() ==> #[trigger] picks[i] != m,
    ensures
        share(turns, picks, m) == Tokens::none(),
    decreases turns.len(),
{
    if turns.len() > 0 {
        lemma_nothing_picked(turns.drop_last(), picks.drop_last(), m);
    }
}

proof fn lemma_with_room(models: Seq<SourceTotal>, turns: Seq<CindyTurnUsage>, upto: int)
    ensures
        forall|k: int|
            0 <= k < with_room(models, turns, upto).len() ==> {
                let m = #[trigger] with_room(models, turns, upto)[k];
                0 <= m < upto && leaves_room(models, turns, m)
            },
    decreases upto,
{
    if upto > 0 {
        lemma_with_room(models, turns, upto - 1);
        let rest = with_room(models, turns, upto - 1);
        let all = with_room(models, turns, upto);
        assert forall|k: int| 0 <= k < all.len() implies 0 <= #[trigger] all[k] < upto
            && leaves_room(models, turns, all[k]) by {
            assert(k < rest.len() ==> 0 <= rest[k] < upto - 1);
        }
    }
}

/// No daily total is below zero.
pub open spec fn counts(models: Seq<SourceTotal>) -> bool {
    forall|m: int| 0 <= m < models.len() ==> Tokens::none().within((#[trigger] models[m]).tokens)
}

/// Where turns are given to models, no model is given more tokens than its
/// daily total has.
pub proof fn law_assigned_turns_fit(
    models: Seq<SourceTotal>,
    turns: Seq<CindyTurnUsage>,
    m: int,
)
    requires
        counts(models),
        assigned(models, turns) is Some,
        0 <= m < models.len(),
    ensures
        share(turns, definite(assigned(models, turns)->0), Some(m)).held().within(
            models[m].tokens,
        ),
{
    let picks = assigned(models, turns)->0;
    let named = hints(models, turns);
    if models.len() == 1 {
        assert(definite(picks) =~= Seq::new(turns.len(), |i: int| Some(0int)));
    } else {
        let rest = if all_hinted(turns) {
            0
        } else {
            lemma_with_room(models, turns, models.len() as int);
            sole(with_room(models, turns, models.len() as int))->0
        };
        lemma_completed_share(models, turns, rest, m);
        lemma_share_counts(turns, named, Some(m));
        lemma_share_counts(turns, named, None);
        if all_hinted(turns) {
            assert forall|i: int| 0 <= i < named.len() implies #[trigger] named[i] != None::<
                int,
            > by {
                assert(turns[i].billing_hint is Some);
            }
            lemma_nothing_picked(turns, named, None);
        }
        if !picked(named, m) {
            lemma_nothing_picked(turns, named, Some(m));
        }
        assert(models[m] == models[m]);
    }
}

/// Turns are given to the models of the daily totals alone, one model each.
pub proof fn law_assigned_models_exist(models: Seq<SourceTotal>, turns: Seq<CindyTurnUsage>)
    requires
        assigned(models, turns) is Some,
    ensures
        (assigned(models, turns)->0).len() == turns.len(),
        forall|i: int|
            0 <= i < turns.len() ==> 0 <= #[trigger] (assigned(models, turns)->0)[i]
                < models.len(),
{
    lemma_with_room(models, turns, models.len() as int);
    lemma_billed(models, CindyBillingKind::Api);
    lemma_billed(models, CindyBillingKind::Subscription);
    let picks = assigned(models, turns)->0;
    if models.len() > 1 {
        assert forall|i: int| 0 <= i < turns.len() implies 0 <= #[trigger] picks[i]
            < models.len() by {
            assert(turns[i].billing_hint is Some || !all_hinted(turns));
            match turns[i].billing_hint {
                Some(kind) => {
                    assert(hinted(models, turns[i]) is Some);
                    assert(0 <= billed(models, kind)[0] < models.len());
                },
                None => {},
            }
        }
    }
}

/// The tokens of turns added up.
pub open spec fn sum_of(turns: Seq<CindyTurnUsage>) -> Tokens
    decreases turns.len(),
{
    if turns.len() == 0 {
        Tokens { input: 0, output: 0, cache_read: 0, cache_create: 0 }
    } else {
        let rest = sum_of(turns.drop_last());
        let turn = turns.last();
        Tokens {
            input: rest.input + turn.input_tokens,
            output: rest.output + turn.output_tokens,
            cache_read: rest.cache_read + turn.cache_read_tokens,
            cache_create: rest.cache_create + turn.cache_create_tokens,
        }
    }
}

/// The turns that say of how they were paid for just that.
pub open spec fn saying(turns: Seq<CindyTurnUsage>, kind: Option<CindyBillingKind>) -> Seq<
    CindyTurnUsage,
>
    decreases turns.len(),
{
    if turns.len() == 0 {
        Seq::empty()
    } else {
        let rest = saying(turns.drop_last(), kind);
        if turns.last().billing_hint == kind {
            rest.push(turns.last())
        } else {
            rest
        }
    }
}

/// The one model that is paid for as `kind`.
pub open spec fn only_model_of(
    models: Seq<SourceTotal>,
    kind: CindyBillingKind,
    m: int,
) -> bool {
    &&& 0 <= m < models.len()
    &&& cindy::billing_kind(models[m].model) == Some(kind)
    &&& forall|k: int|
        0 <= k < models.len() && k != m ==> cindy::billing_kind((#[trigger] models[k]).model)
            != Some(kind)
}

/// The tokens of the turns that say that they were paid for as the model is.
pub open spec fn claimed(models: Seq<SourceTotal>, turns: Seq<CindyTurnUsage>, m: int) -> Tokens {
    match cindy::billing_kind(models[m].model) {
        Some(kind) => sum_of(saying(turns, Some(kind))),
        None => Tokens { input: 0, output: 0, cache_read: 0, cache_create: 0 },
    }
}

proof fn lemma_share_of_all(turns: Seq<CindyTurnUsage>, picks: Seq<Option<int>>, m: Option<int>)
    requires
        picks.len() == turns.len(),
        forall|i: int| 0 <= i < picks.len() ==> #[trigger] picks[i] == m,
    ensures
        share(turns, picks, m) == sum_of(turns),
    decreases turns.len(),
{
    if turns.len() > 0 {
        lemma_share_of_all(turns.drop_last(), picks.drop_last(), m);
        assert(picks.last() == picks[picks.len() - 1]);
    }
}

/// The turns that name a model are those that say how it is paid for.
proof fn lemma_share_of_some(
    turns: Seq<CindyTurnUsage>,
    picks: Seq<Option<int>>,
    m: Option<int>,
    kind: Option<CindyBillingKind>,
)
    requires
        picks.len() == turns.len(),
        forall|i: int|
            0 <= i < picks.len() ==> (#[trigger] picks[i] == m <==> turns[i].billing_hint == kind),
    ensures
        share(turns, picks, m) == sum_of(saying(turns, kind)),
    decreases turns.len(),
{
    if turns.len() > 0 {
        let fewer = turns.drop_last();
        let rest = picks.drop_last();
        assert forall|i: int| 0 <= i < rest.len() implies (#[trigger] rest[i] == m
            <==> fewer[i].billing_hint == kind) by {
            assert(rest[i] == picks[i]);
        }
        lemma_share_of_some(fewer, rest, m, kind);
        assert(picks.last() == picks[picks.len() - 1]);
        if turns.last().billing_hint == kind {
            assert(saying(turns, kind).drop_last() =~= saying(fewer, kind));
        }
    }
}

proof fn lemma_billed_holds(models: Seq<SourceTotal>, kind: CindyBillingKind)
    ensures
        forall|m: int|
            #![trigger models[m]]
            0 <= m < models.len() && cindy::billing_kind(models[m].model) == Some(kind)
                ==> billed(models, kind).contains(m),
        forall|k: int|
            0 <= k < billed(models, kind).len() ==> 0 <= #[trigger] billed(models, kind)[k]
                < models.len() && cindy::billing_kind(models[billed(models, kind)[k]].model)
                == Some(kind),
        forall|j: int, k: int|
            0 <= j < k < billed(models, kind).len() ==> #[trigger] billed(models, kind)[j]
                < #[trigger] billed(models, kind)[k],
    decreases models.len(),
{
    if models.len() > 0 {
        let fewer = models.drop_last();
        lemma_billed_holds(fewer, kind);
        let rest = billed(fewer, kind);
        let all = billed(models, kind);
        assert forall|m: int|
            #![trigger models[m]]
            0 <= m < models.len() && cindy::billing_kind(models[m].model) == Some(
                kind,
            ) implies all.contains(m) by {
            if m < fewer.len() {
                assert(fewer[m] == models[m]);
                let k = choose|k: int| 0 <= k < rest.len() && rest[k] == m;
                assert(all[k] == m);
            } else {
                assert(all[all.len() - 1] == m);
            }
        }
        assert forall|k: int| 0 <= k < all.len() implies 0 <= #[trigger] all[k] < models.len()
            && cindy::billing_kind(models[all[k]].model) == Some(kind) by {
            if k < rest.len() {
                assert(all[k] == rest[k]);
                assert(fewer[rest[k]] == models[rest[k]]);
            }
        }
        assert forall|j: int, k: int| 0 <= j < k < all.len() implies #[trigger] all[j]
            < #[trigger] all[k] by {
            if k < rest.len() {
                assert(all[j] == rest[j] && all[k] == rest[k]);
            } else {
                assert(all[j] == rest[j]);
            }
        }
    }
}

/// There is one model that is paid for as a kind where, and only where, it is
/// the only one.
proof fn lemma_sole_billed(models: Seq<SourceTotal>, kind: CindyBillingKind, m: int)
    ensures
        sole(billed(models, kind)) == Some(m) <==> only_model_of(models, kind, m),
{
    lemma_billed_holds(models, kind);
    let all = billed(models, kind);
    if sole(all) == Some(m) {
        assert(all[0] == m);
        assert forall|k: int| 0 <= k < models.len() && k != m implies cindy::billing_kind(
            (#[trigger] models[k]).model,
        ) != Some(kind) by {
            if cindy::billing_kind(models[k].model) == Some(kind) {
                assert(all.contains(k));
            }
        }
    }
    if only_model_of(models, kind, m) {
        assert(all.contains(m));
        if all.len() > 1 {
            assert(all[0] < all[1]);
            assert(cindy::billing_kind(models[all[0]].model) == Some(kind));
            assert(cindy::billing_kind(models[all[1]].model) == Some(kind));
        }
        assert(all.len() == 1);
    }
}

/// Every turn that says how it was paid for names the only model that is paid
/// for that way.
pub open spec fn all_clear(models: Seq<SourceTotal>, turns: Seq<CindyTurnUsage>) -> bool {
    forall|i: int|
        0 <= i < turns.len() && (#[trigger] turns[i]).billing_hint is Some ==> exists|m: int|
            only_model_of(models, turns[i].billing_hint->0, m)
}

proof fn lemma_clear(models: Seq<SourceTotal>, turns: Seq<CindyTurnUsage>)
    ensures
        clear(models, turns) == all_clear(models, turns),
{
    if clear(models, turns) {
        assert forall|i: int| 0 <= i < turns.len() && (
        #[trigger] turns[i]).billing_hint is Some implies exists|m: int|
            only_model_of(models, turns[i].billing_hint->0, m) by {
            let m = hinted(models, turns[i])->0;
            lemma_sole_billed(models, turns[i].billing_hint->0, m);
            assert(only_model_of(models, turns[i].billing_hint->0, m));
        }
    }
    if all_clear(models, turns) {
        assert forall|i: int| 0 <= i < turns.len() && (
        #[trigger] turns[i]).billing_hint is Some implies hinted(models, turns[i]) is Some by {
            let m = choose|m: int| only_model_of(models, turns[i].billing_hint->0, m);
            lemma_sole_billed(models, turns[i].billing_hint->0, m);
        }
    }
}

/// Where all turns are clear, the turns that name a model are those that say
/// that they were paid for as it is, and the others say nothing.
proof fn lemma_claimed(models: Seq<SourceTotal>, turns: Seq<CindyTurnUsage>, m: int)
    requires
        clear(models, turns),
        0 <= m < models.len(),
    ensures
        share(turns, hints(models, turns), Some(m)) == claimed(models, turns, m),
        share(turns, hints(models, turns), None) == sum_of(saying(turns, None)),
{
    let picks = hints(models, turns);
    lemma_clear(models, turns);
    assert forall|i: int| 0 <= i < picks.len() implies (#[trigger] picks[i] == None::<int>
        <==> turns[i].billing_hint == None::<CindyBillingKind>) by {
        assert(picks[i] == hinted(models, turns[i]));
    }
    lemma_share_of_some(turns, picks, None, None);
    match cindy::billing_kind(models[m].model) {
        Some(kind) => {
            assert forall|i: int| 0 <= i < picks.len() implies (#[trigger] picks[i] == Some(m)
                <==> turns[i].billing_hint == Some(kind)) by {
                assert(picks[i] == hinted(models, turns[i]));
                if let Some(own) = turns[i].billing_hint {
                    let k = hinted(models, turns[i])->0;
                    lemma_sole_billed(models, own, k);
                    assert(only_model_of(models, own, k));
                    assert(models[m] == models[m]);
                }
            }
            lemma_share_of_some(turns, picks, Some(m), Some(kind));
        },
        None => {
            assert forall|i: int| 0 <= i < picks.len() implies #[trigger] picks[i] != Some(m) by {
                assert(picks[i] == hinted(models, turns[i]));
                if let Some(own) = turns[i].billing_hint {
                    let k = hinted(models, turns[i])->0;
                    lemma_sole_billed(models, own, k);
                }
            }
            lemma_nothing_picked(turns, picks, Some(m));
        },
    }
}

/// A day of one model takes all turns where, and only where, they have no more
/// tokens than it.
pub proof fn law_sole_model_takes_all_turns(models: Seq<SourceTotal>, turns: Seq<CindyTurnUsage>)
    requires
        models.len() == 1,
    ensures
        assigned(models, turns) is Some <==> sum_of(turns).held().within(models[0].tokens),
        assigned(models, turns) matches Some(picks) ==> picks == Seq::new(
            turns.len(),
            |i: int| 0int,
        ),
{
    let all = Seq::new(turns.len(), |i: int| Some(0int));
    lemma_share_of_all(turns, all, Some(0));
}

/// A day without models takes no turns.
pub proof fn law_no_model_takes_no_turn(turns: Seq<CindyTurnUsage>)
    ensures
        assigned(Seq::empty(), turns) is None,
{
}

/// Just what the turns that say nothing need is left of a model, once the turns
/// that say they were paid for as it is have taken theirs.
pub open spec fn has_room(models: Seq<SourceTotal>, turns: Seq<CindyTurnUsage>, m: int) -> bool {
    &&& claimed(models, turns, m).held().within(models[m].tokens)
    &&& models[m].tokens == claimed(models, turns, m).held().plus(
        sum_of(saying(turns, None)).held(),
    )
}

proof fn lemma_with_room_holds(models: Seq<SourceTotal>, turns: Seq<CindyTurnUsage>, upto: int)
    ensures
        forall|m: int|
            0 <= m < upto && #[trigger] leaves_room(models, turns, m) ==> with_room(
                models,
                turns,
                upto,
            ).contains(m),
        forall|k: int|
            0 <= k < with_room(models, turns, upto).len() ==> 0 <= #[trigger] with_room(
                models,
                turns,
                upto,
            )[k] < upto && leaves_room(models, turns, with_room(models, turns, upto)[k]),
        forall|j: int, k: int|
            0 <= j < k < with_room(models, turns, upto).len() ==> #[trigger] with_room(
                models,
                turns,
                upto,
            )[j] < #[trigger] with_room(models, turns, upto)[k],
    decreases upto,
{
    if upto > 0 {
        lemma_with_room_holds(models, turns, upto - 1);
        let rest = with_room(models, turns, upto - 1);
        let all = with_room(models, turns, upto);
        assert forall|m: int| 0 <= m < upto && #[trigger] leaves_room(
            models,
            turns,
            m,
        ) implies all.contains(m) by {
            if m < upto - 1 {
                let k = choose|k: int| 0 <= k < rest.len() && rest[k] == m;
                assert(all[k] == m);
            } else {
                assert(all[all.len() - 1] == m);
            }
        }
        assert forall|k: int| 0 <= k < all.len() implies 0 <= #[trigger] all[k] < upto
            && leaves_room(models, turns, all[k]) by {
            if k < rest.len() {
                assert(all[k] == rest[k]);
            }
        }
        assert forall|j: int, k: int| 0 <= j < k < all.len() implies #[trigger] all[j]
            < #[trigger] all[k] by {
            if k < rest.len() {
                assert(all[j] == rest[j] && all[k] == rest[k]);
            } else {
                assert(all[j] == rest[j]);
            }
        }
    }
}

/// The one model that has room.
pub open spec fn only_room(models: Seq<SourceTotal>, turns: Seq<CindyTurnUsage>, m: int) -> bool {
    &&& 0 <= m < models.len()
    &&& has_room(models, turns, m)
    &&& forall|k: int|
        0 <= k < models.len() && k != m ==> !#[trigger] has_room(models, turns, k)
}

proof fn lemma_sole_room(models: Seq<SourceTotal>, turns: Seq<CindyTurnUsage>, m: int)
    requires
        clear(models, turns),
    ensures
        sole(with_room(models, turns, models.len() as int)) == Some(m) <==> only_room(
            models,
            turns,
            m,
        ),
{
    let all = with_room(models, turns, models.len() as int);
    lemma_with_room_holds(models, turns, models.len() as int);
    assert forall|k: int| 0 <= k < models.len() implies #[trigger] leaves_room(models, turns, k)
        == has_room(models, turns, k) by {
        lemma_claimed(models, turns, k);
    }
    if sole(all) == Some(m) {
        assert(all[0] == m);
        assert forall|k: int| 0 <= k < models.len() && k != m implies !#[trigger] has_room(
            models,
            turns,
            k,
        ) by {
            if has_room(models, turns, k) {
                assert(leaves_room(models, turns, k));
                assert(all.contains(k));
            }
        }
    }
    if only_room(models, turns, m) {
        assert(leaves_room(models, turns, m));
        assert(all.contains(m));
        if all.len() > 1 {
            assert(all[0] < all[1]);
            assert(has_room(models, turns, all[0]) && has_room(models, turns, all[1]));
        }
        assert(all.len() == 1);
    }
}

/// Turns of a day of several models are settled where, and only where, each
/// turn that says how it was paid for names the only model paid for that way,
/// no model is claimed beyond its total, no two turns have one request id, and
/// for the turns that say nothing, if any, just one model has room for exactly
/// them.
pub proof fn law_when_turns_are_settled(models: Seq<SourceTotal>, turns: Seq<CindyTurnUsage>)
    requires
        models.len() > 1,
        counts(models),
    ensures
        assigned(models, turns) is Some <==> {
            &&& all_clear(models, turns)
            &&& forall|m: int|
                0 <= m < models.len() ==> claimed(models, turns, m).held().within(
                    (#[trigger] models[m]).tokens,
                )
            &&& forall|i: int, j: int|
                0 <= i < j < turns.len() ==> (#[trigger] turns[i]).request_id@ != (
                #[trigger] turns[j]).request_id@
            &&& (forall|i: int|
                0 <= i < turns.len() ==> (#[trigger] turns[i]).billing_hint is Some) || exists|m: int|
                only_room(models, turns, m)
        },
{
    lemma_clear(models, turns);
    if clear(models, turns) {
        let picks = hints(models, turns);
        assert forall|m: int| 0 <= m < models.len() implies (picked(picks, m) ==> share(
            turns,
            picks,
            Some(m),
        ).held().within((#[trigger] models[m]).tokens)) == claimed(models, turns, m).held().within(
            models[m].tokens,
        ) by {
            lemma_claimed(models, turns, m);
            if !picked(picks, m) {
                assert forall|i: int| 0 <= i < picks.len() implies #[trigger] picks[i] != Some(m) by {}
                lemma_nothing_picked(turns, picks, Some(m));
                assert(Tokens::none().within(models[m].tokens));
            }
        }
        assert(hints_fit(models, turns) == forall|m: int|
            0 <= m < models.len() ==> claimed(models, turns, m).held().within(
                (#[trigger] models[m]).tokens,
            ));
        let room = with_room(models, turns, models.len() as int);
        if let Some(m) = sole(room) {
            lemma_sole_room(models, turns, m);
        }
        if exists|m: int| only_room(models, turns, m) {
            let m = choose|m: int| only_room(models, turns, m);
            lemma_sole_room(models, turns, m);
        }
    }
}

/// Where turns of a day of several models are settled, a turn that says how it
/// was paid for goes to the only model that is paid for that way, and all turns
/// that say nothing go to the one model that has room for exactly them.
pub proof fn law_where_turns_go(
    models: Seq<SourceTotal>,
    turns: Seq<CindyTurnUsage>,
    i: int,
)
    requires
        models.len() > 1,
        assigned(models, turns) is Some,
        0 <= i < turns.len(),
    ensures
        ({
            let m = (assigned(models, turns)->0)[i];
            match turns[i].billing_hint {
                Some(kind) => only_model_of(models, kind, m),
                None => only_room(models, turns, m),
            }
        }),
{
    let m = (assigned(models, turns)->0)[i];
    match turns[i].billing_hint {
        Some(kind) => {
            assert(hinted(models, turns[i]) is Some);
            lemma_sole_billed(models, kind, m);
        },
        None => {
            assert(!all_hinted(turns));
            lemma_sole_room(models, turns, m);
        },
    }
}

} // verus!
