//! The runs that bring Cindy's usage into the database: when one is due, what
//! it reports, and what is noted of its sources.

use vstd::prelude::*;
use crate::cindy_ledger;
use crate::cindy_ledger::CindyUsageSnapshot;
use crate::cindy_plan;
use crate::cindy_read;
use crate::cindy_read::CindyDir;
use crate::cindy_settle;
use crate::hash;
use crate::numbers;
use crate::paths;
use crate::sync;
use crate::sync::{SessionSyncResult, SyncReport};
use crate::text;
use crate::usage;

verus! {

/// What is known of one Cindy database: when it was changed, if that can be
/// told, and what was noted of it when it was last read.
#[derive(Debug)]
pub struct CindyFileState {
    pub path: String,
    pub modified: Option<i64>,
    pub synced: i64,
}

/// What is known of one Cindy database.
pub struct FileFacts {
    pub path: Seq<char>,
    pub modified: Option<i64>,
    pub synced: i64,
}

impl View for CindyFileState {
    type V = FileFacts;

    open spec fn view(&self) -> FileFacts {
        FileFacts { path: self.path@, modified: self.modified, synced: self.synced }
    }
}

/// What is known of Cindy databases.
pub open spec fn facts(files: Seq<CindyFileState>) -> Seq<FileFacts> {
    files.map_values(|file: CindyFileState| file@)
}

/// The databases whose time of change is known, with it.
pub open spec fn dated(files: Seq<FileFacts>) -> Seq<(Seq<char>, i64)>
    decreases files.len(),
{
    if files.len() == 0 {
        Seq::empty()
    } else {
        let rest = dated(files.drop_last());
        match files.last().modified {
            Some(modified) => rest.push((files.last().path, modified)),
            None => rest,
        }
    }
}

/// One error per database whose time of change cannot be told.
pub open spec fn undated_errors(files: Seq<FileFacts>) -> Seq<Seq<char>>
    decreases files.len(),
{
    if files.len() == 0 {
        Seq::empty()
    } else {
        let rest = undated_errors(files.drop_last());
        match files.last().modified {
            Some(_) => rest,
            None => rest.push(
                "Cindy 数据库元数据读取失败 ("@ + hash::short_hash(seq![files.last().path]) + ")"@,
            ),
        }
    }
}

/// The paths of databases.
pub open spec fn file_paths(files: Seq<FileFacts>) -> Seq<Seq<char>> {
    files.map_values(|file: FileFacts| file.path)
}

/// Some database was changed.
pub open spec fn any_changed(files: Seq<FileFacts>) -> bool {
    exists|i: int|
        0 <= i < files.len() && (#[trigger] files[i]).modified is Some && files[i].modified
            != Some(files[i].synced)
}

/// Whether a refresh is due: it is asked for, the set of databases is another
/// one, or one of them was changed.
pub open spec fn refresh_due(files: Seq<FileFacts>, marker: i64, force: bool) -> bool {
    force || hash::source_set_marker(file_paths(files)) != marker || any_changed(files)
}

/// The report on a set of databases before any is read.
pub open spec fn first_report(files: Seq<FileFacts>) -> SyncReport {
    SyncReport {
        imported: 0,
        skipped: 0,
        files_scanned: numbers::counted(files.len() as int) as u32,
        errors: undated_errors(files),
        data_changed: false,
    }
}

/// What a look at Cindy's databases found.
#[derive(Debug)]
pub struct CindyCheck {
    pub result: SessionSyncResult,
    /// Whether the databases are to be read.
    pub due: bool,
    /// The databases that can be read, with the time of their change.
    pub files: Vec<(String, i64)>,
    /// The number for the set of databases.
    pub marker: i64,
    /// Whether there are databases that cannot be read now.
    pub incomplete: bool,
}

/// The view of dated databases.
pub open spec fn dated_files(files: Seq<(String, i64)>) -> Seq<(Seq<char>, i64)> {
    files.map_values(|f: (String, i64)| (f.0@, f.1))
}

/// What a look at databases is to find.
pub open spec fn checked(
    check: CindyCheck,
    files: Seq<FileFacts>,
    marker: i64,
    force: bool,
) -> bool {
    &&& check.result@ == first_report(files)
    &&& check.due == refresh_due(files, marker, force)
    &&& dated_files(check.files@) == dated(files)
    &&& check.marker == hash::source_set_marker(file_paths(files))
    &&& check.incomplete == (dated(files).len() != files.len())
}

/// Looks whether Cindy's databases are to be read.
pub fn check_cindy_sources(files: &Vec<CindyFileState>, marker: i64, force: bool) -> (r: CindyCheck)
    ensures
        checked(r, facts(files@), marker, force),
{
    let files_scanned: u32 = if files.len() > u32::MAX as usize {
        u32::MAX
    } else {
        files.len() as u32
    };
    let ghost all = facts(files@);
    let mut result = sync::empty_result(files_scanned);
    let mut names: Vec<String> = Vec::new();
    let mut readable: Vec<(String, i64)> = Vec::new();
    let mut changed = false;
    let mut i: usize = 0;
    assert(dated_files(readable@) =~= dated(all.take(0)));
    assert(paths::texts(names@) =~= file_paths(all.take(0)));
    while i < files.len()
        invariant
            i <= files@.len(),
            all == facts(files@),
            result@.imported == 0,
            result@.skipped == 0,
            result@.files_scanned == files_scanned,
            !result@.data_changed,
            result@.errors == undated_errors(all.take(i as int)),
            paths::texts(names@) == file_paths(all.take(i as int)),
            dated_files(readable@) == dated(all.take(i as int)),
            changed == (exists|k: int|
                0 <= k < i && (#[trigger] all[k]).modified is Some && all[k].modified != Some(
                    all[k].synced,
                )),
        decreases files@.len() - i,
    {
        let file = &files[i];
        let path = file.path.as_str();
        let ghost names_before = paths::texts(names@);
        let ghost readable_before = dated_files(readable@);
        assert(all.take(i + 1).drop_last() =~= all.take(i as int));
        assert(all[i as int] == file@);
        names.push(path.to_owned());
        assert(paths::texts(names@) =~= names_before.push(path@));
        assert(file_paths(all.take(i + 1)) =~= names_before.push(path@));
        match file.modified {
            Some(modified) => {
                if modified != file.synced {
                    changed = true;
                }
                readable.push((path.to_owned(), modified));
                assert(dated_files(readable@) =~= readable_before.push((path@, modified)));
            },
            None => {
                let parts: Vec<&str> = vec![path];
                assert(hash::views(parts@) =~= seq![path@]);
                result.add_error(
                    text::joined3(
                        "Cindy 数据库元数据读取失败 (",
                        hash::cindy_short_hash(&parts).as_str(),
                        ")",
                    ),
                );
            },
        }
        i += 1;
    }
    assert(all.take(all.len() as int) =~= all);
    let set: i64 = hash::cindy_source_set_marker(&names);
    assert(dated_files(readable@).len() == readable@.len());
    let incomplete = readable.len() != files.len();
    CindyCheck {
        result,
        due: force || set != marker || changed,
        files: readable,
        marker: set,
        incomplete,
    }
}

/// What is known of the database at a path: nothing of its change where it
/// is not listed.
pub open spec fn state_at(states: Seq<FileFacts>, path: Seq<char>) -> FileFacts
    decreases states.len(),
{
    if states.len() == 0 {
        FileFacts { path, modified: None, synced: 0 }
    } else if states.last().path == path {
        states.last()
    } else {
        state_at(states.drop_last(), path)
    }
}

/// What is known of the databases at some paths.
pub open spec fn states_at(states: Seq<FileFacts>, found: Seq<Seq<char>>) -> Seq<FileFacts> {
    found.map_values(|path: Seq<char>| state_at(states, path))
}

fn find_state(states: &Vec<CindyFileState>, path: &str) -> (r: CindyFileState)
    ensures
        r@ == state_at(facts(states@), path@),
{
    let ghost all = facts(states@);
    let mut i: usize = states.len();
    assert(all.take(all.len() as int) =~= all);
    while i > 0
        invariant
            i <= states@.len(),
            all == facts(states@),
            state_at(all, path@) == state_at(all.take(i as int), path@),
        decreases i,
    {
        assert(all.take(i as int).drop_last() =~= all.take(i - 1));
        assert(all.take(i as int).last() == states@[i - 1]@);
        let state = &states[i - 1];
        if text::same_text(state.path.as_str(), path) {
            return CindyFileState {
                path: path.to_owned(),
                modified: state.modified,
                synced: state.synced,
            };
        }
        i -= 1;
    }
    CindyFileState { path: path.to_owned(), modified: None, synced: 0 }
}

/// What is known of the databases that are found in some directories.
pub open spec fn found_facts(dirs: Seq<CindyDir>, states: Seq<CindyFileState>) -> Seq<FileFacts> {
    states_at(facts(states), cindy_read::found_databases(dirs).paths)
}

fn found_states(dirs: &Vec<CindyDir>, states: &Vec<CindyFileState>) -> (r: Vec<CindyFileState>)
    ensures
        facts(r@) == found_facts(dirs@, states@),
{
    let found = cindy_read::discover_cindy_databases(dirs);
    let ghost wanted = found_facts(dirs@, states@);
    let ghost all = paths::texts(found@);
    let mut files: Vec<CindyFileState> = Vec::new();
    let mut i: usize = 0;
    while i < found.len()
        invariant
            i <= found@.len(),
            all == paths::texts(found@),
            wanted == states_at(facts(states@), all),
            files@.len() == i,
            forall|k: int| 0 <= k < i ==> (#[trigger] files@[k])@ == wanted[k],
        decreases found@.len() - i,
    {
        assert(all[i as int] == found@[i as int]@);
        files.push(find_state(states, found[i].as_str()));
        i += 1;
    }
    assert(facts(files@) =~= wanted);
    files
}

/// Looks whether the Cindy databases of some directories are to be read.
pub fn sync_cindy_usage(dirs: &Vec<CindyDir>, states: &Vec<CindyFileState>, marker: i64) -> (r:
    CindyCheck)
    ensures
        checked(r, found_facts(dirs@, states@), marker, false),
{
    let files = found_states(dirs, states);
    check_cindy_sources(&files, marker, false)
}

/// The same look, for databases that are to be read in any case.
pub fn reconcile_cindy_usage(dirs: &Vec<CindyDir>, states: &Vec<CindyFileState>, marker: i64) -> (r:
    CindyCheck)
    ensures
        checked(r, found_facts(dirs@, states@), marker, true),
{
    let files = found_states(dirs, states);
    check_cindy_sources(&files, marker, true)
}

/// What came of reading one Cindy database.
#[derive(Debug)]
pub enum CindyRead {
    Usage(CindyUsageSnapshot),
    /// The database is too old to hold daily totals.
    NoDailyTable,
    Failed(String),
}

/// A report with one database more.
pub open spec fn with_read(report: SyncReport, read: CindyRead) -> SyncReport {
    match read {
        CindyRead::Usage(_) => report,
        CindyRead::NoDailyTable => report.with_error(
            "Cindy 账号用量跳过: 数据库版本尚无 daily_model_usage 表"@,
        ),
        CindyRead::Failed(error) => report.with_error("Cindy 账号用量读取失败: "@ + error@),
    }
}

/// A report with databases more.
pub open spec fn with_reads(report: SyncReport, reads: Seq<CindyRead>) -> SyncReport
    decreases reads.len(),
{
    if reads.len() == 0 {
        report
    } else {
        with_read(with_reads(report, reads.drop_last()), reads.last())
    }
}

/// What was read, in order.
pub open spec fn snapshots(reads: Seq<CindyRead>) -> Seq<CindyUsageSnapshot>
    decreases reads.len(),
{
    if reads.len() == 0 {
        Seq::empty()
    } else {
        let rest = snapshots(reads.drop_last());
        match reads.last() {
            CindyRead::Usage(snapshot) => rest.push(snapshot),
            _ => rest,
        }
    }
}

/// Some database could not be read.
pub open spec fn any_failed(reads: Seq<CindyRead>) -> bool {
    exists|i: int| 0 <= i < reads.len() && #[trigger] reads[i] is Failed
}

/// Takes what was read of Cindy's databases. Nothing comes back where a
/// database could not be read: its usage would be lost in a refresh.
pub fn gather_cindy_reads(
    check: &CindyCheck,
    result: &mut SessionSyncResult,
    reads: Vec<CindyRead>,
) -> (r:
    Option<Vec<CindyUsageSnapshot>>)
    ensures
        final(result)@ == with_reads(old(result)@, reads@),
        match r {
            Some(sources) => !check.incomplete && !any_failed(reads@) && sources@ == snapshots(
                reads@,
            ),
            None => check.incomplete || any_failed(reads@),
        },
{
    let ghost all = reads@;
    let ghost before = result@;
    let mut failed = false;
    let mut sources: Vec<CindyUsageSnapshot> = Vec::new();
    assert(all.take(0) =~= Seq::<CindyRead>::empty());
    for read in it: reads.into_iter()
        invariant
            it.seq() == all,
            result@ == with_reads(before, all.take(it.index() as int)),
            sources@ == snapshots(all.take(it.index() as int)),
            failed == (exists|i: int| 0 <= i < it.index() && #[trigger] all[i] is Failed),
    {
        let ghost i = it.index() as int;
        assert(all.take(i + 1).drop_last() =~= all.take(i));
        assert(all[i] == read);
        match read {
            CindyRead::Usage(snapshot) => sources.push(snapshot),
            CindyRead::NoDailyTable => result.add_error(
                "Cindy 账号用量跳过: 数据库版本尚无 daily_model_usage 表".to_owned(),
            ),
            CindyRead::Failed(error) => {
                failed = true;
                result.add_error(text::joined("Cindy 账号用量读取失败: ", error.as_str()));
            },
        }
    }
    assert(all.take(all.len() as int) =~= all);
    if check.incomplete || failed {
        None
    } else {
        Some(sources)
    }
}

/// A report on a refresh: the rows that it wrote, and whether anything may look
/// different now.
pub open spec fn refreshed(
    report: SyncReport,
    turn_rows: u32,
    rollup_rows: u32,
    previous_rows: i64,
) -> SyncReport {
    let imported = numbers::counted(turn_rows + rollup_rows) as u32;
    SyncReport { imported, data_changed: previous_rows > 0 || imported > 0, ..report }
}

/// Takes what a refresh wrote into its report. `previous_rows` is how many rows
/// were there before.
pub fn finish_cindy_refresh(
    result: &mut SessionSyncResult,
    turn_rows: u32,
    rollup_rows: u32,
    previous_rows: i64,
)
    ensures
        final(result)@ == refreshed(old(result)@, turn_rows, rollup_rows, previous_rows),
{
    result.imported = turn_rows.saturating_add(rollup_rows);
    result.data_changed = previous_rows > 0 || result.imported > 0;
}

/// What is to be noted of databases once they are read: for each its time of
/// change, and the number for the set.
pub open spec fn marks_of(files: Seq<(Seq<char>, i64)>, marker: i64) -> Seq<(Seq<char>, i64)> {
    files.map_values(|f: (Seq<char>, i64)| (hash::cindy_sync_name(f.0), f.1)).push(
        (usage::CINDY_SOURCE_SET_SYNC_KEY@, marker),
    )
}

/// What is to be noted of databases once they are read.
pub fn cindy_marks(files: &Vec<(String, i64)>, marker: i64) -> (r: Vec<(String, i64)>)
    ensures
        dated_files(r@) == marks_of(dated_files(files@), marker),
{
    let ghost all = dated_files(files@);
    let ghost wanted = marks_of(all, marker);
    let mut marks: Vec<(String, i64)> = Vec::new();
    let mut i: usize = 0;
    assert(dated_files(marks@) =~= wanted.take(0));
    while i < files.len()
        invariant
            i <= files@.len(),
            all == dated_files(files@),
            wanted == marks_of(all, marker),
            dated_files(marks@) == wanted.take(i as int),
        decreases files@.len() - i,
    {
        let ghost before = dated_files(marks@);
        assert(all[i as int] == (files@[i as int].0@, files@[i as int].1));
        marks.push((hash::cindy_sync_key(files[i].0.as_str()), files[i].1));
        assert(dated_files(marks@) =~= before.push(wanted[i as int]));
        assert(wanted.take(i + 1) =~= wanted.take(i as int).push(wanted[i as int]));
        i += 1;
    }
    let ghost before = dated_files(marks@);
    marks.push((usage::CINDY_SOURCE_SET_SYNC_KEY.to_owned(), marker));
    assert(dated_files(marks@) =~= before.push((usage::CINDY_SOURCE_SET_SYNC_KEY@, marker)));
    assert(dated_files(marks@) =~= wanted);
    marks
}

/// A refresh that noted every database and the set of them is not due again
/// until one of them or the set changes.
pub proof fn law_noted_sources_are_left_alone(files: Seq<FileFacts>)
    requires
        forall|i: int|
            0 <= i < files.len() ==> (#[trigger] files[i]).modified == Some(files[i].synced),
    ensures
        !refresh_due(files, hash::source_set_marker(file_paths(files)) as i64, false),
{
    let marker = hash::source_set_marker(file_paths(files));
    assert(0 <= marker < 0x8000_0000_0000_0000);
}

/// A database that is changed later makes a refresh due.
pub proof fn law_changed_source_is_due(files: Seq<FileFacts>, marker: i64, i: int)
    requires
        0 <= i < files.len(),
        files[i].modified is Some,
        files[i].modified != Some(files[i].synced),
    ensures
        refresh_due(files, marker, false),
{
}

/// Where all databases went away and the set that was noted has another number
/// than the empty one, a refresh is due. It reads nothing and loses nothing to
/// a failure; it writes neither a turn nor a daily total, so that no usage of
/// Cindy is left; and it reports no import, and a change where there were rows
/// before. Once the empty set is noted, no refresh is due.
pub proof fn law_vanished_sources_are_cleared(
    check: CindyCheck,
    marker: i64,
    previous_rows: i64,
    app: Seq<char>,
)
    requires
        hash::source_set_marker(Seq::empty()) != marker,
        checked(check, Seq::empty(), marker, false),
    ensures
        ({
            let none = Seq::<CindyUsageSnapshot>::empty();
            let plan = cindy_plan::cindy_plan(none, app);
            &&& check.due
            &&& check.files@.len() == 0
            &&& !check.incomplete
            &&& snapshots(Seq::empty()) == none
            &&& cindy_ledger::sources_fault(none) is None
            &&& plan.len() == 0
            &&& cindy_settle::plan_fault(cindy_ledger::daily_table(none, app), plan) is None
            &&& cindy_settle::all_residuals(
                cindy_ledger::daily_table(none, app),
                plan,
                Seq::empty(),
            ).len() == 0
            &&& cindy_settle::rows_written(Seq::empty()) == 0
            &&& refreshed(with_reads(check.result@, Seq::empty()), 0, 0, previous_rows) == (
            SyncReport { data_changed: previous_rows > 0, ..sync::nothing_in(0) })
            &&& marks_of(Seq::empty(), check.marker) == seq![
                (usage::CINDY_SOURCE_SET_SYNC_KEY@, check.marker),
            ]
            &&& !refresh_due(Seq::empty(), check.marker, false)
        }),
{
    let files = Seq::<FileFacts>::empty();
    assert(file_paths(files) =~= Seq::<Seq<char>>::empty());
    assert(dated_files(check.files@).len() == check.files@.len());
    assert(undated_errors(files) =~= Seq::<Seq<char>>::empty());
    assert(marks_of(Seq::empty(), check.marker) =~= seq![
        (usage::CINDY_SOURCE_SET_SYNC_KEY@, check.marker),
    ]);
}

/// A refresh is due where it is asked for, where the set of databases has
/// another number than the one that was noted, or where some database was
/// changed, and otherwise not.
pub proof fn law_when_a_refresh_is_due(files: Seq<FileFacts>, marker: i64, force: bool)
    ensures
        refresh_due(files, marker, force) <==> {
            ||| force
            ||| hash::source_set_marker(Seq::new(files.len(), |i: int| files[i].path)) != marker
            ||| exists|i: int|
                0 <= i < files.len() && ((#[trigger] files[i]).modified matches Some(time) && time
                    != files[i].synced)
        },
{
    assert(file_paths(files) =~= Seq::new(files.len(), |i: int| files[i].path));
    if any_changed(files) {
        let i = choose|i: int|
            0 <= i < files.len() && (#[trigger] files[i]).modified is Some && files[i].modified
                != Some(files[i].synced);
        assert(files[i].modified matches Some(time) && time != files[i].synced);
    }
    if exists|i: int|
        0 <= i < files.len() && ((#[trigger] files[i]).modified matches Some(time) && time
            != files[i].synced) {
        let i = choose|i: int|
            0 <= i < files.len() && ((#[trigger] files[i]).modified matches Some(time) && time
                != files[i].synced);
        assert(files[i].modified is Some);
    }
}

/// Each database is either read, with the time of its change, or reported as
/// one whose time cannot be told.
pub proof fn law_databases_are_read_or_reported(files: Seq<FileFacts>, file: FileFacts)
    ensures
        dated(Seq::empty()).len() == 0 && undated_errors(Seq::empty()).len() == 0,
        dated(files).len() + undated_errors(files).len() == files.len(),
        file.modified matches Some(time) ==> dated(files.push(file)) == dated(files).push(
            (file.path, time),
        ) && undated_errors(files.push(file)) == undated_errors(files),
        file.modified is None ==> dated(files.push(file)) == dated(files) && undated_errors(
            files.push(file),
        ) == undated_errors(files).push(
            "Cindy 数据库元数据读取失败 ("@ + hash::short_hash(seq![file.path]) + ")"@,
        ),
        first_report(files).imported == 0 && first_report(files).skipped == 0,
        files.len() <= u32::MAX ==> first_report(files).files_scanned == files.len(),
        first_report(files).errors == undated_errors(files) && !first_report(files).data_changed,
    decreases files.len(),
{
    assert(files.push(file).drop_last() =~= files);
    if files.len() > 0 {
        law_databases_are_read_or_reported(files.drop_last(), files.last());
    }
}

/// What is known of a database is what is listed under its path, and where
/// nothing is, its time of change is not known.
pub proof fn law_state_of_a_database(states: Seq<FileFacts>, path: Seq<char>, i: int)
    ensures
        0 <= i < states.len() && states[i].path == path && (forall|k: int|
            i < k < states.len() ==> (#[trigger] states[k]).path != path) ==> state_at(states, path)
            == states[i],
        (forall|k: int| 0 <= k < states.len() ==> (#[trigger] states[k]).path != path) ==> state_at(
            states,
            path,
        ).modified is None && state_at(states, path).path == path,
        state_at(states, path).path == path,
    decreases states.len(),
{
    if states.len() > 0 {
        let fewer = states.drop_last();
        law_state_of_a_database(fewer, path, i);
        assert(states.last() == states[states.len() - 1]);
        if 0 <= i < fewer.len() {
            assert(fewer[i] == states[i]);
            if forall|k: int| i < k < states.len() ==> (#[trigger] states[k]).path != path {
                assert forall|k: int| i < k < fewer.len() implies (#[trigger] fewer[k]).path
                    != path by {
                    assert(fewer[k] == states[k]);
                }
            }
        }
        if forall|k: int| 0 <= k < states.len() ==> (#[trigger] states[k]).path != path {
            assert forall|k: int| 0 <= k < fewer.len() implies (#[trigger] fewer[k]).path != path by {
                assert(fewer[k] == states[k]);
            }
        }
    }
}

/// What was read of the databases goes into a refresh in its order. A database
/// that is too old is reported and left out; one that failed is reported too.
pub proof fn law_reads_go_into_a_refresh(report: SyncReport, reads: Seq<CindyRead>, read: CindyRead)
    ensures
        snapshots(Seq::empty()).len() == 0 && with_reads(report, Seq::empty()) == report,
        match read {
            CindyRead::Usage(snapshot) => {
                &&& snapshots(reads.push(read)) == snapshots(reads).push(snapshot)
                &&& with_reads(report, reads.push(read)) == with_reads(report, reads)
            },
            CindyRead::NoDailyTable => {
                &&& snapshots(reads.push(read)) == snapshots(reads)
                &&& with_reads(report, reads.push(read)).errors == with_reads(
                    report,
                    reads,
                ).errors.push("Cindy 账号用量跳过: 数据库版本尚无 daily_model_usage 表"@)
            },
            CindyRead::Failed(error) => {
                &&& snapshots(reads.push(read)) == snapshots(reads)
                &&& with_reads(report, reads.push(read)).errors == with_reads(
                    report,
                    reads,
                ).errors.push("Cindy 账号用量读取失败: "@ + error@)
            },
        },
        with_reads(report, reads.push(read)).imported == with_reads(report, reads).imported,
{
    assert(reads.push(read).drop_last() =~= reads);
}

/// A refresh reports as imported the rows of turns and of what was left, and a
/// change where it wrote or took away any.
pub proof fn law_report_of_a_refresh(
    report: SyncReport,
    turn_rows: u32,
    rollup_rows: u32,
    previous_rows: i64,
)
    ensures
        ({
            let after = refreshed(report, turn_rows, rollup_rows, previous_rows);
            &&& turn_rows + rollup_rows <= u32::MAX ==> after.imported == turn_rows + rollup_rows
            &&& turn_rows + rollup_rows > u32::MAX ==> after.imported == u32::MAX
            &&& after.data_changed <==> previous_rows > 0 || turn_rows > 0 || rollup_rows > 0
            &&& after.errors == report.errors
            &&& after.files_scanned == report.files_scanned
            &&& after.skipped == report.skipped
        }),
{
}

/// Once databases are read, the time of the change of each is noted under its
/// own name, and the number of the set under the set's.
pub proof fn law_what_is_noted_of_databases(
    files: Seq<(Seq<char>, i64)>,
    marker: i64,
    i: int,
)
    ensures
        marks_of(files, marker).len() == files.len() + 1,
        0 <= i < files.len() ==> marks_of(files, marker)[i] == (
            "desktop:cindy:v5:"@ + hash::short_hash(seq![files[i].0]),
            files[i].1,
        ),
        marks_of(files, marker).last() == ("desktop:cindy:v5:source-set"@, marker),
{
}

} // verus!
