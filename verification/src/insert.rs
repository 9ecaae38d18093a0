//! Writing a usage record: whether another row has the call already, and
//! what is written.

use vstd::prelude::*;
use crate::cindy;
use crate::numbers;
use crate::text;
use crate::usage;
use crate::usage::{DesktopUsageInsertOutcome, DesktopUsageRecord, UsageRecord};

verus! {

/// A call that another application wrote down. The cost is the bits of an
/// IEEE 754 double, if the text of it is a number.
#[derive(Debug)]
pub struct UpstreamRow {
    pub app_type: String,
    pub session_id: String,
    pub created_at: i64,
    pub input_tokens: u32,
    pub output_tokens: u32,
    pub cache_read_tokens: u32,
    pub cache_creation_tokens: u32,
    pub model: String,
    pub total_cost_usd: Option<u64>,
}

/// How many seconds the times of one call may be apart in two applications.
pub const UPSTREAM_WINDOW: i64 = 120;

/// The first and the last second of the calls that a record may repeat.
pub fn upstream_window(created_at: i64) -> (r: (i64, i64))
    ensures
        r.0 == numbers::saturated(created_at - UPSTREAM_WINDOW),
        r.1 == numbers::saturated(created_at + UPSTREAM_WINDOW),
{
    (
        numbers::add_saturating(created_at, -UPSTREAM_WINDOW),
        numbers::add_saturating(created_at, UPSTREAM_WINDOW),
    )
}

/// Two names that differ in the case of their letters alone.
pub open spec fn same_name(a: Seq<char>, b: Seq<char>) -> bool {
    text::ascii_lowered(a) == text::ascii_lowered(b)
}

/// Two models that may be one: variants of one model, or one is unknown.
pub open spec fn models_agree(a: Seq<char>, b: Seq<char>) -> bool {
    let x = cindy::canonical_model(a);
    let y = cindy::canonical_model(b);
    same_name(x, "unknown"@) || same_name(y, "unknown"@) || same_name(x, y)
}

/// Whether two models may be one.
pub fn models_may_agree(a: &str, b: &str) -> (r: bool)
    ensures
        r == models_agree(a@, b@),
{
    let x = cindy::canonical_cindy_model(a);
    let y = cindy::canonical_cindy_model(b);
    text::eq_ignore_ascii_case(x.as_str(), "unknown") || text::eq_ignore_ascii_case(
        y.as_str(),
        "unknown",
    ) || text::eq_ignore_ascii_case(x.as_str(), y.as_str())
}

/// A record repeats a call of another application: of the session that it
/// names, about the same time, with the same tokens, and of the same model.
pub open spec fn repeats(record: UsageRecord, row: UpstreamRow) -> bool {
    match record.upstream {
        Some(upstream) => {
            &&& row.app_type@ == upstream.0
            &&& row.session_id@ == upstream.1
            &&& numbers::saturated(record.created_at - UPSTREAM_WINDOW) <= row.created_at
                <= numbers::saturated(record.created_at + UPSTREAM_WINDOW)
            &&& row.input_tokens == record.input_tokens
            &&& row.output_tokens == record.output_tokens
            &&& row.cache_read_tokens == record.cache_read_tokens
            &&& row.cache_creation_tokens == record.cache_creation_tokens
            &&& models_agree(record.model, row.model@)
        },
        None => false,
    }
}

/// Whether a record repeats a call of another application.
pub fn is_repeated(record: &DesktopUsageRecord, row: &UpstreamRow) -> (r: bool)
    ensures
        r == repeats(record@, *row),
{
    match &record.upstream_dedup {
        Some(upstream) => {
            let window = upstream_window(record.created_at);
            text::same_text(row.app_type.as_str(), upstream.app_type.as_str()) && text::same_text(
                row.session_id.as_str(),
                upstream.session_id.as_str(),
            ) && window.0 <= row.created_at && row.created_at <= window.1 && row.input_tokens
                == record.input_tokens && row.output_tokens == record.output_tokens
                && row.cache_read_tokens == record.cache_read_tokens && row.cache_creation_tokens
                == record.cache_creation_tokens && models_may_agree(
                record.model.as_str(),
                row.model.as_str(),
            )
        },
        None => false,
    }
}

/// The cost of a row, or nothing where it is no cost.
pub open spec fn row_cost(row: UpstreamRow) -> u64 {
    match usage::usable_cost(row.total_cost_usd) {
        Some(cost) => cost,
        None => 0,
    }
}

/// The cost of the first call that a record repeats.
pub open spec fn duplicate_cost(record: UsageRecord, rows: Seq<UpstreamRow>) -> Option<u64>
    decreases rows.len(),
{
    if rows.len() == 0 {
        None
    } else if repeats(record, rows[0]) {
        Some(row_cost(rows[0]))
    } else {
        duplicate_cost(record, rows.skip(1))
    }
}

/// The cost of the first call of another application that a record repeats.
pub fn upstream_duplicate_cost(record: &DesktopUsageRecord, rows: &Vec<UpstreamRow>) -> (r: Option<
    u64,
>)
    ensures
        r == duplicate_cost(record@, rows@),
{
    let mut i: usize = 0;
    assert(rows@.skip(0) =~= rows@);
    while i < rows.len()
        invariant
            i <= rows@.len(),
            duplicate_cost(record@, rows@) == duplicate_cost(record@, rows@.skip(i as int)),
        decreases rows@.len() - i,
    {
        assert(rows@.skip(i as int)[0] == rows@[i as int]);
        assert(rows@.skip(i as int).skip(1) =~= rows@.skip(i + 1));
        if is_repeated(record, &rows[i]) {
            return match usage::finite_non_negative(rows[i].total_cost_usd) {
                Some(cost) => Some(cost),
                None => Some(0),
            };
        }
        i += 1;
    }
    None
}

/// Whether another application has the call already.
pub fn has_upstream_duplicate(record: &DesktopUsageRecord, rows: &Vec<UpstreamRow>) -> (r: bool)
    ensures
        r == duplicate_cost(record@, rows@) is Some,
{
    upstream_duplicate_cost(record, rows).is_some()
}

/// What is to be done next for a record.
#[derive(Clone, Copy, Debug, PartialEq, Eq, Structural)]
pub enum InsertStage {
    /// Look for a call of another application that the record repeats.
    FindUpstream,
    /// Write a mirror of that call, at that cost.
    WriteMirror { total_cost_usd: u64 },
    /// Look whether the application's own rows have the call.
    CheckRecorded,
    /// Write the record.
    WriteRow,
    Done(DesktopUsageInsertOutcome),
}

/// What came of it.
#[derive(Clone, Copy, Debug, PartialEq, Eq, Structural)]
pub enum InsertEvent {
    /// The cost of the call that the record repeats, if there is one.
    Upstream(Option<u64>),
    /// Whether the application's own rows have the call.
    Recorded(bool),
    /// Whether a row was written.
    Written(bool),
}

/// What is to be done next. An event that does not answer the stage leaves it.
pub open spec fn stage_after(app_type: Seq<char>, stage: InsertStage, event: InsertEvent) -> InsertStage {
    match (stage, event) {
        (InsertStage::FindUpstream, InsertEvent::Upstream(Some(total_cost_usd))) => if app_type
            == usage::CINDY_APP_TYPE@ {
            InsertStage::WriteMirror { total_cost_usd }
        } else {
            InsertStage::Done(
                DesktopUsageInsertOutcome::AccountedInUpstreamApp {
                    total_cost_usd,
                    mirror_inserted: false,
                },
            )
        },
        (InsertStage::FindUpstream, InsertEvent::Upstream(None)) => InsertStage::CheckRecorded,
        (InsertStage::WriteMirror { total_cost_usd }, InsertEvent::Written(mirror_inserted)) =>
        InsertStage::Done(
            DesktopUsageInsertOutcome::AccountedInUpstreamApp { total_cost_usd, mirror_inserted },
        ),
        (InsertStage::CheckRecorded, InsertEvent::Recorded(true)) => InsertStage::Done(
            DesktopUsageInsertOutcome::AccountedInSameApp,
        ),
        (InsertStage::CheckRecorded, InsertEvent::Recorded(false)) => InsertStage::WriteRow,
        (InsertStage::WriteRow, InsertEvent::Written(true)) => InsertStage::Done(
            DesktopUsageInsertOutcome::Inserted,
        ),
        (InsertStage::WriteRow, InsertEvent::Written(false)) => InsertStage::Done(
            DesktopUsageInsertOutcome::AccountedInSameApp,
        ),
        _ => stage,
    }
}

/// What is to be done next for a record.
pub fn next_insert_stage(record: &DesktopUsageRecord, stage: InsertStage, event: InsertEvent) -> (r:
    InsertStage)
    ensures
        r == stage_after(record@.app_type, stage, event),
{
    match (stage, event) {
        (InsertStage::FindUpstream, InsertEvent::Upstream(Some(total_cost_usd))) => {
            if text::same_text(record.app_type.as_str(), usage::CINDY_APP_TYPE) {
                InsertStage::WriteMirror { total_cost_usd }
            } else {
                InsertStage::Done(
                    DesktopUsageInsertOutcome::AccountedInUpstreamApp {
                        total_cost_usd,
                        mirror_inserted: false,
                    },
                )
            }
        },
        (InsertStage::FindUpstream, InsertEvent::Upstream(None)) => InsertStage::CheckRecorded,
        (InsertStage::WriteMirror { total_cost_usd }, InsertEvent::Written(mirror_inserted)) => {
            InsertStage::Done(
                DesktopUsageInsertOutcome::AccountedInUpstreamApp {
                    total_cost_usd,
                    mirror_inserted,
                },
            )
        },
        (InsertStage::CheckRecorded, InsertEvent::Recorded(recorded)) => {
            if recorded {
                InsertStage::Done(DesktopUsageInsertOutcome::AccountedInSameApp)
            } else {
                InsertStage::WriteRow
            }
        },
        (InsertStage::WriteRow, InsertEvent::Written(written)) => {
            if written {
                InsertStage::Done(DesktopUsageInsertOutcome::Inserted)
            } else {
                InsertStage::Done(DesktopUsageInsertOutcome::AccountedInSameApp)
            }
        },
        _ => stage,
    }
}

/// The stages after events, one by one.
pub open spec fn stage_after_all(
    app_type: Seq<char>,
    stage: InsertStage,
    events: Seq<InsertEvent>,
) -> InsertStage
    decreases events.len(),
{
    if events.len() == 0 {
        stage
    } else {
        stage_after(
            app_type,
            stage_after_all(app_type, stage, events.drop_last()),
            events.last(),
        )
    }
}

/// A record that repeats a call of another application is never written as a
/// row of its own, whatever comes of the steps after it was found.
pub proof fn law_repeated_call_is_not_inserted(
    app_type: Seq<char>,
    cost: u64,
    events: Seq<InsertEvent>,
)
    ensures
        ({
            let found = stage_after(
                app_type,
                InsertStage::FindUpstream,
                InsertEvent::Upstream(Some(cost)),
            );
            let last = stage_after_all(app_type, found, events);
            &&& last != InsertStage::WriteRow
            &&& last != InsertStage::Done(DesktopUsageInsertOutcome::Inserted)
            &&& last matches InsertStage::Done(outcome) ==> outcome matches
                DesktopUsageInsertOutcome::AccountedInUpstreamApp { total_cost_usd, .. }
                && total_cost_usd == cost
        }),
    decreases events.len(),
{
    let found = stage_after(
        app_type,
        InsertStage::FindUpstream,
        InsertEvent::Upstream(Some(cost)),
    );
    lemma_repeated(app_type, cost, found, events);
}

/// The stages that follow the call of another application.
spec fn settled_upstream(stage: InsertStage, cost: u64) -> bool {
    match stage {
        InsertStage::WriteMirror { total_cost_usd } => total_cost_usd == cost,
        InsertStage::Done(
            DesktopUsageInsertOutcome::AccountedInUpstreamApp { total_cost_usd, .. },
        ) => total_cost_usd == cost,
        _ => false,
    }
}

proof fn lemma_repeated(
    app_type: Seq<char>,
    cost: u64,
    stage: InsertStage,
    events: Seq<InsertEvent>,
)
    requires
        settled_upstream(stage, cost),
    ensures
        settled_upstream(stage_after_all(app_type, stage, events), cost),
    decreases events.len(),
{
    if events.len() > 0 {
        lemma_repeated(app_type, cost, stage, events.drop_last());
    }
}

/// What is decided about the row of a record.
#[derive(Debug)]
pub struct RowChoice {
    pub request_model: String,
    pub data_source: String,
    /// The model that the row is priced by, where it is named.
    pub pricing_model: Option<String>,
    /// The cost, where it is not to be worked out from prices.
    pub fixed_cost: Option<u64>,
}

/// A mirror of a call that another application has: how it is marked, and
/// its cost.
#[derive(Debug)]
pub struct MirrorRow {
    pub request_model: String,
    pub data_source: String,
    pub total_cost_usd: u64,
}

/// What is decided about the row of a record, or of its mirror.
pub fn choose_row(record: &DesktopUsageRecord, mirror: Option<&MirrorRow>) -> (r: RowChoice)
    ensures
        r.request_model@ == (match mirror {
            Some(m) => m.request_model@,
            None => record@.model,
        }),
        r.data_source@ == (match mirror {
            Some(m) => m.data_source@,
            None => record@.data_source,
        }),
        r.fixed_cost == (match mirror {
            Some(m) => Some(m.total_cost_usd),
            None => record@.total_cost_usd,
        }),
        text::opt_text(r.pricing_model) == if record@.app_type == usage::CINDY_APP_TYPE@ {
            Some(record@.model)
        } else {
            None
        },
{
    let pricing_model = if text::same_text(record.app_type.as_str(), usage::CINDY_APP_TYPE) {
        Some(record.model.as_str().to_owned())
    } else {
        None
    };
    match mirror {
        Some(m) => RowChoice {
            request_model: m.request_model.as_str().to_owned(),
            data_source: m.data_source.as_str().to_owned(),
            pricing_model,
            fixed_cost: Some(m.total_cost_usd),
        },
        None => RowChoice {
            request_model: record.model.as_str().to_owned(),
            data_source: record.data_source.as_str().to_owned(),
            pricing_model,
            fixed_cost: record.total_cost_usd,
        },
    }
}

/// A record repeats a row where, and only where, the row is of the application
/// and the session that the record names, no more than two minutes away, with
/// the same four token counts, and of a model that may be the same.
pub proof fn law_what_a_record_repeats(record: UsageRecord, row: UpstreamRow)
    ensures
        repeats(record, row) <==> {
            &&& record.upstream == Some((row.app_type@, row.session_id@))
            &&& -120 <= row.created_at - record.created_at <= 120
            &&& row.input_tokens == record.input_tokens
            &&& row.output_tokens == record.output_tokens
            &&& row.cache_read_tokens == record.cache_read_tokens
            &&& row.cache_creation_tokens == record.cache_creation_tokens
            &&& models_agree(record.model, row.model@)
        },
        record.upstream is None ==> !repeats(record, row),
{
}

/// Two models may be the same where the names that their variants share are
/// one but for the case of letters, or where one of them is unknown; it does
/// not matter which of the two is asked about.
pub proof fn law_models_that_may_be_one(a: Seq<char>, b: Seq<char>)
    ensures
        models_agree(a, a),
        models_agree(a, b) == models_agree(b, a),
        text::ascii_lowered(cindy::canonical_model(a)) == text::ascii_lowered(
            cindy::canonical_model(b),
        ) ==> models_agree(a, b),
        text::ascii_lowered(cindy::canonical_model(a)) == text::ascii_lowered("unknown"@)
            ==> models_agree(a, b),
        models_agree(a, b) ==> {
            ||| text::ascii_lowered(cindy::canonical_model(a)) == text::ascii_lowered(
                cindy::canonical_model(b),
            )
            ||| text::ascii_lowered(cindy::canonical_model(a)) == text::ascii_lowered("unknown"@)
            ||| text::ascii_lowered(cindy::canonical_model(b)) == text::ascii_lowered("unknown"@)
        },
{
}

/// A call is found among the rows of other applications where, and only where,
/// one of them is repeated, and its cost is that of the first such row, or zero
/// where that is no finite amount from zero up.
pub proof fn law_first_repeated_row_gives_the_cost(
    record: UsageRecord,
    rows: Seq<UpstreamRow>,
    i: int,
)
    ensures
        0 <= i < rows.len() && repeats(record, rows[i]) && (forall|k: int|
            0 <= k < i ==> !repeats(record, #[trigger] rows[k])) ==> duplicate_cost(record, rows)
            == Some(
            match rows[i].total_cost_usd {
                Some(bits) => if bits < 0x7ff0_0000_0000_0000 || bits == 0x8000_0000_0000_0000 {
                    bits
                } else {
                    0
                },
                None => 0,
            },
        ),
        (forall|k: int| 0 <= k < rows.len() ==> !repeats(record, #[trigger] rows[k]))
            ==> duplicate_cost(record, rows) is None,
    decreases rows.len(),
{
    if rows.len() > 0 {
        let rest = rows.skip(1);
        law_first_repeated_row_gives_the_cost(record, rest, i - 1);
        if 0 < i < rows.len() {
            assert(rest[i - 1] == rows[i]);
            if forall|k: int| 0 <= k < i ==> !repeats(record, #[trigger] rows[k]) {
                assert(!repeats(record, rows[0]));
                assert forall|k: int| 0 <= k < i - 1 implies !repeats(record, #[trigger] rest[k]) by {
                    assert(rest[k] == rows[k + 1]);
                }
            }
        }
        if forall|k: int| 0 <= k < rows.len() ==> !repeats(record, #[trigger] rows[k]) {
            assert(!repeats(record, rows[0]));
            assert forall|k: int| 0 <= k < rest.len() implies !repeats(record, #[trigger] rest[k]) by {
                assert(rest[k] == rows[k + 1]);
            }
        }
    }
}

/// What becomes of a record. Where another application has the call, Cindy
/// writes a mirror of it and any other agent writes nothing, at the cost that
/// is known there. Otherwise the record is written, unless the application's
/// own rows have it.
pub proof fn law_what_becomes_of_a_record(
    app_type: Seq<char>,
    upstream: Option<u64>,
    recorded: bool,
    written: bool,
)
    ensures
        ({
            let first = InsertStage::FindUpstream;
            let found = InsertEvent::Upstream(upstream);
            &&& upstream matches Some(cost) ==> if app_type == "cindy"@ {
                stage_after_all(
                    app_type,
                    first,
                    seq![found, InsertEvent::Written(written)],
                ) == InsertStage::Done(
                    DesktopUsageInsertOutcome::AccountedInUpstreamApp {
                        total_cost_usd: cost,
                        mirror_inserted: written,
                    },
                )
            } else {
                stage_after_all(app_type, first, seq![found]) == InsertStage::Done(
                    DesktopUsageInsertOutcome::AccountedInUpstreamApp {
                        total_cost_usd: cost,
                        mirror_inserted: false,
                    },
                )
            }
            &&& upstream is None && recorded ==> stage_after_all(
                app_type,
                first,
                seq![found, InsertEvent::Recorded(true)],
            ) == InsertStage::Done(DesktopUsageInsertOutcome::AccountedInSameApp)
            &&& upstream is None && !recorded ==> stage_after_all(
                app_type,
                first,
                seq![found, InsertEvent::Recorded(false)],
            ) == InsertStage::WriteRow && stage_after_all(
                app_type,
                first,
                seq![found, InsertEvent::Recorded(false), InsertEvent::Written(written)],
            ) == InsertStage::Done(
                if written {
                    DesktopUsageInsertOutcome::Inserted
                } else {
                    DesktopUsageInsertOutcome::AccountedInSameApp
                },
            )
        }),
{
    reveal_with_fuel(stage_after_all, 4);
    let found = InsertEvent::Upstream(upstream);
    let recorded = InsertEvent::Recorded(false);
    let last = InsertEvent::Written(written);
    assert(seq![found].drop_last() =~= Seq::<InsertEvent>::empty());
    assert(seq![found, last].drop_last() =~= seq![found]);
    assert(seq![found, InsertEvent::Recorded(true)].drop_last() =~= seq![found]);
    assert(seq![found, recorded].drop_last() =~= seq![found]);
    assert(seq![found, recorded, last].drop_last() =~= seq![found, recorded]);
}

/// A call that no other application has is not accounted elsewhere: whatever
/// comes of the steps, no mirror of it is written, and in the end its row was
/// written or the application's own rows have it.
pub proof fn law_unrepeated_call_stays_with_the_application(
    app_type: Seq<char>,
    events: Seq<InsertEvent>,
)
    ensures
        ({
            let first = stage_after(
                app_type,
                InsertStage::FindUpstream,
                InsertEvent::Upstream(None),
            );
            let last = stage_after_all(app_type, first, events);
            &&& !(last is WriteMirror)
            &&& last matches InsertStage::Done(outcome) ==> outcome
                == DesktopUsageInsertOutcome::Inserted || outcome
                == DesktopUsageInsertOutcome::AccountedInSameApp
        }),
{
    lemma_never_upstream(app_type, events);
}

/// The stages of a call that no other application has.
spec fn own_stage(stage: InsertStage) -> bool {
    match stage {
        InsertStage::CheckRecorded => true,
        InsertStage::WriteRow => true,
        InsertStage::Done(DesktopUsageInsertOutcome::Inserted) => true,
        InsertStage::Done(DesktopUsageInsertOutcome::AccountedInSameApp) => true,
        _ => false,
    }
}

proof fn lemma_never_upstream(app_type: Seq<char>, events: Seq<InsertEvent>)
    ensures
        own_stage(
            stage_after_all(
                app_type,
                stage_after(app_type, InsertStage::FindUpstream, InsertEvent::Upstream(None)),
                events,
            ),
        ),
    decreases events.len(),
{
    if events.len() > 0 {
        lemma_never_upstream(app_type, events.drop_last());
    }
}

} // verus!
