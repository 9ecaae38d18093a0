//! What the runs over a source leave in the database of usage.

use vstd::prelude::*;
use crate::insert;
use crate::insert::{InsertEvent, InsertStage, UpstreamRow};
use crate::sync;
use crate::sync::{RowOutcome, SourceState, SyncReport};
use crate::usage;
use crate::usage::{DesktopUsageInsertOutcome, UsageRecord};

verus! {

/// The rows that desktop agents have in the database, by their request ids.
pub type UsageTable = Map<Seq<char>, UsageRecord>;

/// Whether the row of a record is there.
pub open spec fn is_there(table: UsageTable, record: UsageRecord) -> bool {
    &&& table.contains_key(record.request_id)
    &&& table[record.request_id].app_type == record.app_type
    &&& table[record.request_id].data_source == record.data_source
}

/// Whether the row of a record is to go: it is there, and another application
/// has the call too.
pub open spec fn is_surplus(table: UsageTable, record: UsageRecord, upstream: Seq<UpstreamRow>) -> bool {
    insert::duplicate_cost(record, upstream) is Some && is_there(table, record)
}

/// The rows without those of records that another application has too.
pub open spec fn reconciled(
    table: UsageTable,
    records: Seq<UsageRecord>,
    upstream: Seq<UpstreamRow>,
) -> UsageTable
    decreases records.len(),
{
    if records.len() == 0 {
        table
    } else {
        let rest = reconciled(table, records.drop_last(), upstream);
        if is_surplus(rest, records.last(), upstream) {
            rest.remove(records.last().request_id)
        } else {
            rest
        }
    }
}

/// Whether a row went.
pub open spec fn any_surplus(
    table: UsageTable,
    records: Seq<UsageRecord>,
    upstream: Seq<UpstreamRow>,
) -> bool
    decreases records.len(),
{
    records.len() > 0 && (any_surplus(table, records.drop_last(), upstream) || is_surplus(
        reconciled(table, records.drop_last(), upstream),
        records.last(),
        upstream,
    ))
}

/// A call that another application wrote down is found among its rows.
pub proof fn law_repeated_call_is_found(
    record: UsageRecord,
    upstream: Seq<UpstreamRow>,
    j: int,
)
    requires
        0 <= j < upstream.len(),
        insert::repeats(record, upstream[j]),
    ensures
        insert::duplicate_cost(record, upstream) is Some,
    decreases upstream.len(),
{
    if !insert::repeats(record, upstream[0]) {
        assert(upstream.skip(1)[j - 1] == upstream[j]);
        law_repeated_call_is_found(record, upstream.skip(1), j - 1);
    }
}

/// Rows go, and none comes; a row goes only for a record that another
/// application has too; and rows went where, and only where, it is said so.
proof fn lemma_reconciled(
    table: UsageTable,
    records: Seq<UsageRecord>,
    upstream: Seq<UpstreamRow>,
)
    ensures
        ({
            let after = reconciled(table, records, upstream);
            &&& after.submap_of(table)
            &&& forall|id: Seq<char>|
                table.contains_key(id) && !(#[trigger] after.contains_key(id)) ==> any_surplus(
                    table,
                    records,
                    upstream,
                ) && exists|k: int|
                    0 <= k < records.len() && (#[trigger] records[k]).request_id == id
                        && insert::duplicate_cost(records[k], upstream) is Some
            &&& !any_surplus(table, records, upstream) ==> after == table
        }),
    decreases records.len(),
{
    if records.len() > 0 {
        let fewer = records.drop_last();
        lemma_reconciled(table, fewer, upstream);
        let rest = reconciled(table, fewer, upstream);
        let after = reconciled(table, records, upstream);
        assert forall|id: Seq<char>| table.contains_key(id) && !(#[trigger] after.contains_key(id))
            implies any_surplus(table, records, upstream) && exists|k: int|
            0 <= k < records.len() && (#[trigger] records[k]).request_id == id
                && insert::duplicate_cost(records[k], upstream) is Some by {
            if rest.contains_key(id) {
                assert(records[records.len() - 1] == records.last());
            } else {
                let k = choose|k: int|
                    0 <= k < fewer.len() && (#[trigger] fewer[k]).request_id == id
                        && insert::duplicate_cost(fewer[k], upstream) is Some;
                assert(records[k] == fewer[k]);
            }
        }
    }
}

/// A row of a record that another application has too is gone afterwards.
proof fn lemma_surplus_goes(
    table: UsageTable,
    records: Seq<UsageRecord>,
    upstream: Seq<UpstreamRow>,
    i: int,
)
    requires
        0 <= i < records.len(),
        insert::duplicate_cost(records[i], upstream) is Some,
    ensures
        !is_there(reconciled(table, records, upstream), records[i]),
    decreases records.len(),
{
    let fewer = records.drop_last();
    if i < fewer.len() {
        assert(fewer[i] == records[i]);
        lemma_surplus_goes(table, fewer, upstream, i);
    } else {
        assert(records.last() == records[i]);
    }
}

/// A call that CodePilot wrote down first and Codex later is counted once. On
/// the run after Codex's row came, the row of CodePilot goes, and with it no
/// row but of calls that another application has too. Where CodePilot's
/// database was not changed, the run imports nothing and says that what is
/// shown may have changed; and the call is not written again afterwards.
pub proof fn law_later_upstream_call_is_counted_once(
    table: UsageTable,
    records: Seq<UsageRecord>,
    upstream: Seq<UpstreamRow>,
    i: int,
    j: int,
    state: SourceState,
    rows: Seq<RowOutcome>,
    events: Seq<InsertEvent>,
)
    requires
        0 <= i < records.len(),
        0 <= j < upstream.len(),
        insert::repeats(records[i], upstream[j]),
        records[i].app_type == usage::CODEPILOT_APP_TYPE@,
        is_there(table, records[i]),
        !sync::changed(state),
    ensures
        ({
            let after = reconciled(table, records, upstream);
            let run = sync::codepilot_run(
                Some(state),
                any_surplus(table, records, upstream),
                rows,
            );
            let again = insert::stage_after_all(
                records[i].app_type,
                insert::stage_after(
                    records[i].app_type,
                    InsertStage::FindUpstream,
                    InsertEvent::Upstream(insert::duplicate_cost(records[i], upstream)),
                ),
                events,
            );
            &&& !after.contains_key(records[i].request_id)
            &&& after.submap_of(table)
            &&& forall|id: Seq<char>|
                table.contains_key(id) && !(#[trigger] after.contains_key(id)) ==> exists|k: int|
                    0 <= k < records.len() && (#[trigger] records[k]).request_id == id
                        && insert::duplicate_cost(records[k], upstream) is Some
            &&& run.0 == (SyncReport { data_changed: true, ..sync::nothing_in(1) })
            &&& run.1 is None
            &&& again != InsertStage::WriteRow
            &&& again != InsertStage::Done(DesktopUsageInsertOutcome::Inserted)
        }),
{
    law_repeated_call_is_found(records[i], upstream, j);
    lemma_reconciled(table, records, upstream);
    lemma_surplus_goes(table, records, upstream, i);
    let after = reconciled(table, records, upstream);
    let id = records[i].request_id;
    assert(!after.contains_key(id)) by {
        if after.contains_key(id) {
            assert(table.dom().contains(id));
            assert(after.dom().contains(id));
            assert(after[id] == table[id]);
        }
    }
    insert::law_repeated_call_is_not_inserted(
        records[i].app_type,
        insert::duplicate_cost(records[i], upstream)->0,
        events,
    );
}

} // verus!
