//! The runs that bring the usage of desktop agents into the database: when
//! one is due, what it reports, and when its source counts as read.

use vstd::prelude::*;
use crate::numbers;
use crate::paths;
use crate::text;

verus! {

/// What a run reports.
#[derive(Debug)]
pub struct SessionSyncResult {
    pub imported: u32,
    pub skipped: u32,
    pub files_scanned: u32,
    pub errors: Vec<String>,
    pub data_changed: bool,
}

/// What a run reports.
pub struct SyncReport {
    pub imported: u32,
    pub skipped: u32,
    pub files_scanned: u32,
    pub errors: Seq<Seq<char>>,
    pub data_changed: bool,
}

impl View for SessionSyncResult {
    type V = SyncReport;

    open spec fn view(&self) -> SyncReport {
        SyncReport {
            imported: self.imported,
            skipped: self.skipped,
            files_scanned: self.files_scanned,
            errors: paths::texts(self.errors@),
            data_changed: self.data_changed,
        }
    }
}

/// A run that found nothing in so many files.
pub open spec fn nothing_in(files_scanned: u32) -> SyncReport {
    SyncReport {
        imported: 0,
        skipped: 0,
        files_scanned,
        errors: Seq::empty(),
        data_changed: false,
    }
}

/// A run that found nothing in so many files.
pub fn empty_result(files_scanned: u32) -> (r: SessionSyncResult)
    ensures
        r@ == nothing_in(files_scanned),
{
    let errors: Vec<String> = Vec::new();
    assert(paths::texts(errors@) =~= Seq::<Seq<char>>::empty());
    SessionSyncResult { imported: 0, skipped: 0, files_scanned, errors, data_changed: false }
}

impl SyncReport {
    pub open spec fn with_error(self, error: Seq<char>) -> SyncReport {
        SyncReport { errors: self.errors.push(error), ..self }
    }

    pub open spec fn with_skipped(self) -> SyncReport {
        SyncReport { skipped: numbers::counted(self.skipped + 1) as u32, ..self }
    }

    pub open spec fn with_imported(self) -> SyncReport {
        SyncReport { imported: numbers::counted(self.imported + 1) as u32, ..self }
    }

    /// Both reports in one.
    pub open spec fn merged(self, other: SyncReport) -> SyncReport {
        SyncReport {
            imported: numbers::counted(self.imported + other.imported) as u32,
            skipped: numbers::counted(self.skipped + other.skipped) as u32,
            files_scanned: numbers::counted(self.files_scanned + other.files_scanned) as u32,
            errors: self.errors + other.errors,
            data_changed: self.data_changed || other.data_changed,
        }
    }
}

impl SessionSyncResult {
    pub fn add_error(&mut self, error: String)
        ensures
            final(self)@ == old(self)@.with_error(error@),
    {
        let ghost before = paths::texts(self.errors@);
        let ghost value = error@;
        self.errors.push(error);
        assert(paths::texts(self.errors@) =~= before.push(value));
    }

    pub fn add_skipped(&mut self)
        ensures
            final(self)@ == old(self)@.with_skipped(),
    {
        self.skipped = self.skipped.saturating_add(1);
    }

    pub fn add_imported(&mut self)
        ensures
            final(self)@ == old(self)@.with_imported(),
    {
        self.imported = self.imported.saturating_add(1);
    }

    /// Takes up another report.
    pub fn merge(&mut self, other: SessionSyncResult)
        ensures
            final(self)@ == old(self)@.merged(other@),
    {
        self.imported = self.imported.saturating_add(other.imported);
        self.skipped = self.skipped.saturating_add(other.skipped);
        self.files_scanned = self.files_scanned.saturating_add(other.files_scanned);
        self.data_changed = self.data_changed || other.data_changed;
        let ghost mine = paths::texts(self.errors@);
        let ghost given = other.errors@;
        let ghost more = paths::texts(given);
        assert(mine + more.take(0) =~= mine);
        for error in it: other.errors.into_iter()
            invariant
                it.seq() == given,
                more == paths::texts(given),
                paths::texts(self.errors@) == mine + more.take(it.index() as int),
                self.imported == numbers::counted(old(self).imported + other.imported),
                self.skipped == numbers::counted(old(self).skipped + other.skipped),
                self.files_scanned == numbers::counted(old(self).files_scanned + other.files_scanned),
                self.data_changed == (old(self).data_changed || other.data_changed),
        {
            let ghost i = it.index() as int;
            let ghost before = paths::texts(self.errors@);
            let ghost value = error@;
            self.errors.push(error);
            assert(more[i] == value);
            assert(paths::texts(self.errors@) =~= before.push(value));
            assert(mine + more.take(i + 1) =~= (mine + more.take(i)).push(value));
        }
        assert(more.take(more.len() as int) =~= more);
    }
}

/// When a source was changed, and what was noted of it when it was last read.
#[derive(Clone, Copy, Debug, PartialEq, Eq, Structural)]
pub struct SourceState {
    pub modified: i64,
    pub synced: i64,
}

/// The file beside a database that holds its latest changes.
pub fn wal_path(path: &str) -> (r: String)
    ensures
        r@ == path@ + "-wal"@,
{
    text::joined(path, "-wal")
}

/// When a database was changed: the later of the times of its two files.
pub fn source_modified_nanos(database: i64, wal: Option<i64>) -> (r: i64)
    ensures
        r == (match wal {
            Some(time) => if time > database {
                time
            } else {
                database
            },
            None => database,
        }),
{
    match wal {
        Some(time) => if time > database {
            time
        } else {
            database
        },
        None => database,
    }
}

/// The name under which the state of Maka's database is kept.
pub fn maka_sync_key(path: &str) -> (r: String)
    ensures
        r@ == "desktop:maka:"@ + path@,
{
    text::joined("desktop:maka:", path)
}

/// The name under which the state of CodePilot's database is kept.
pub fn codepilot_sync_key(path: &str) -> (r: String)
    ensures
        r@ == "desktop:codepilot:"@ + path@,
{
    text::joined("desktop:codepilot:", path)
}

/// Maka's database below the user's data.
pub fn maka_db_path(data_dir: &str) -> (r: String)
    ensures
        r@ == paths::inside(data_dir@, "Maka/workspaces/default/runtime.sqlite"@),
{
    paths::join_path(data_dir, "Maka/workspaces/default/runtime.sqlite")
}

/// CodePilot's database below the home directory.
pub fn codepilot_db_path(home: &str) -> (r: String)
    ensures
        r@ == paths::inside(home@, ".codepilot/codepilot.db"@),
{
    paths::join_path(home, ".codepilot/codepilot.db")
}

/// The directory of DeepSeek Harness's sessions: below the one that the
/// environment names, or else below the home directory.
pub open spec fn harness_sessions(
    environment: Option<Seq<char>>,
    home: Option<Seq<char>>,
) -> Option<Seq<char>> {
    match (environment, home) {
        (Some(dir), _) => Some(paths::inside(dir, "sessions"@)),
        (None, Some(dir)) => Some(paths::inside(paths::inside(dir, ".dsh"@), "sessions"@)),
        _ => None,
    }
}

/// The directory of DeepSeek Harness's sessions.
pub fn deepseek_harness_sessions_dir(environment: Option<&str>, home: Option<&str>) -> (r: Option<
    String,
>)
    ensures
        text::opt_text(r) == harness_sessions(
            crate::json::opt_str(environment),
            crate::json::opt_str(home),
        ),
{
    match (environment, home) {
        (Some(dir), _) => Some(paths::join_path(dir, "sessions")),
        (None, Some(dir)) => {
            let dsh = paths::join_path(dir, ".dsh");
            Some(paths::join_path(dsh.as_str(), "sessions"))
        },
        _ => None,
    }
}

/// What became of one row of a source: whether a record was written, or why
/// it failed.
#[derive(Debug)]
pub struct RowOutcome {
    pub id: String,
    pub outcome: Result<bool, String>,
}

/// A report, and the change of the source that is to be noted as read.
#[derive(Debug)]
pub struct SyncOutcome {
    pub result: SessionSyncResult,
    pub mark: Option<i64>,
}

/// A report with one row more.
pub open spec fn with_row(report: SyncReport, label: Seq<char>, row: RowOutcome) -> SyncReport {
    match row.outcome {
        Ok(true) => report.with_imported(),
        Ok(false) => report.with_skipped(),
        Err(error) => report.with_error(label + row.id@ + ": "@ + error@),
    }
}

/// A report with rows more.
pub open spec fn with_rows(report: SyncReport, label: Seq<char>, rows: Seq<RowOutcome>) -> SyncReport
    decreases rows.len(),
{
    if rows.len() == 0 {
        report
    } else {
        with_row(with_rows(report, label, rows.drop_last()), label, rows.last())
    }
}

/// No row failed.
pub open spec fn all_read(rows: Seq<RowOutcome>) -> bool {
    forall|i: int| 0 <= i < rows.len() ==> (#[trigger] rows[i]).outcome is Ok
}

/// Takes rows into a report, and says whether none failed.
fn tally(result: &mut SessionSyncResult, label: &str, rows: &Vec<RowOutcome>) -> (r: bool)
    ensures
        final(result)@ == with_rows(old(result)@, label@, rows@),
        r == all_read(rows@),
{
    let ghost before = result@;
    let mut all = true;
    let mut i: usize = 0;
    assert(rows@.take(0) =~= Seq::<RowOutcome>::empty());
    while i < rows.len()
        invariant
            i <= rows@.len(),
            result@ == with_rows(before, label@, rows@.take(i as int)),
            all == (forall|k: int| 0 <= k < i ==> (#[trigger] rows@[k]).outcome is Ok),
        decreases rows@.len() - i,
    {
        assert(rows@.take(i + 1).drop_last() =~= rows@.take(i as int));
        match &rows[i].outcome {
            Ok(written) => {
                if *written {
                    result.add_imported();
                } else {
                    result.add_skipped();
                }
            },
            Err(error) => {
                all = false;
                let head = text::joined3(label, rows[i].id.as_str(), ": ");
                result.add_error(text::joined(head.as_str(), error.as_str()));
            },
        }
        i += 1;
    }
    assert(rows@.take(rows@.len() as int) =~= rows@);
    all
}

/// A source that was changed since it was read.
pub open spec fn changed(state: SourceState) -> bool {
    state.modified > state.synced
}

/// The change that is noted once rows were read: none where one failed.
pub open spec fn mark_of(state: SourceState, rows: Seq<RowOutcome>) -> Option<i64> {
    if all_read(rows) {
        Some(state.modified)
    } else {
        None
    }
}

/// A source whose rows were all read is not read again until it is changed,
/// and one with a row that failed is.
pub proof fn law_source_is_read_until_all_is_read(state: SourceState, rows: Seq<RowOutcome>)
    requires
        changed(state),
    ensures
        match mark_of(state, rows) {
            Some(mark) => all_read(rows) && !changed(SourceState { synced: mark, ..state }),
            None => !all_read(rows) && changed(state),
        },
{
}

/// Whether a source is there and was changed since it was read.
pub fn source_changed(source: Option<SourceState>) -> (r: bool)
    ensures
        r == (source matches Some(state) && changed(state)),
{
    match source {
        Some(state) => state.modified > state.synced,
        None => false,
    }
}

/// The report of a run over Maka's database. The rows are those that were
/// read; they are read only where the database was changed.
pub fn sync_maka_usage(source: Option<SourceState>, rows: &Vec<RowOutcome>) -> (r: SyncOutcome)
    ensures
        match source {
            None => r.result@ == nothing_in(0) && r.mark is None,
            Some(state) => if changed(state) {
                &&& r.result@ == with_rows(nothing_in(1), "Maka attempt "@, rows@)
                &&& r.mark == mark_of(state, rows@)
            } else {
                r.result@ == nothing_in(1) && r.mark is None
            },
        },
{
    let state = match source {
        Some(state) => state,
        None => return SyncOutcome { result: empty_result(0), mark: None },
    };
    let mut result = empty_result(1);
    if state.modified <= state.synced {
        return SyncOutcome { result, mark: None };
    }
    let all = tally(&mut result, "Maka attempt ", rows);
    let mark: Option<i64> = if all {
        Some(state.modified)
    } else {
        None
    };
    SyncOutcome { result, mark }
}

/// A report of a run that may have changed what is shown.
pub open spec fn changed_in(report: SyncReport, data_changed: bool) -> SyncReport {
    SyncReport { data_changed, ..report }
}

/// The report of a run over CodePilot's database, and the change that is to be
/// noted.
pub open spec fn codepilot_run(
    source: Option<SourceState>,
    data_changed: bool,
    rows: Seq<RowOutcome>,
) -> (SyncReport, Option<i64>) {
    match source {
        None => (nothing_in(0), None),
        Some(state) => if changed(state) {
            (
                with_rows(
                    changed_in(nothing_in(1), data_changed),
                    "CodePilot message "@,
                    rows,
                ),
                mark_of(state, rows),
            )
        } else {
            (changed_in(nothing_in(1), data_changed), None)
        },
    }
}

/// The report of a run over CodePilot's database. What other applications
/// turned out to have already was taken out before; the rows are read only
/// where the database was changed.
pub fn sync_codepilot_usage(
    source: Option<SourceState>,
    data_changed: bool,
    rows: &Vec<RowOutcome>,
) -> (r: SyncOutcome)
    ensures
        (r.result@, r.mark) == codepilot_run(source, data_changed, rows@),
{
    let state = match source {
        Some(state) => state,
        None => return SyncOutcome { result: empty_result(0), mark: None },
    };
    let mut result = empty_result(1);
    result.data_changed = data_changed;
    if state.modified <= state.synced {
        return SyncOutcome { result, mark: None };
    }
    let all = tally(&mut result, "CodePilot message ", rows);
    let mark: Option<i64> = if all {
        Some(state.modified)
    } else {
        None
    };
    SyncOutcome { result, mark }
}

/// What became of one session file of DeepSeek Harness.
#[derive(Debug)]
pub struct FileOutcome {
    pub path: String,
    pub outcome: Result<SessionSyncResult, String>,
}

/// A report with one file more.
pub open spec fn with_file(report: SyncReport, file: FileOutcome) -> SyncReport {
    match file.outcome {
        Ok(result) => report.merged(result@),
        Err(error) => report.with_error("DeepSeek Harness "@ + file.path@ + ": "@ + error@),
    }
}

/// The report of a run over files.
pub open spec fn files_report(files: Seq<FileOutcome>) -> SyncReport
    decreases files.len(),
{
    if files.len() == 0 {
        nothing_in(0)
    } else {
        with_file(files_report(files.drop_last()), files.last())
    }
}

/// The report of a run over the session files of DeepSeek Harness.
pub fn sync_deepseek_harness_usage(files: Vec<FileOutcome>) -> (r: SessionSyncResult)
    ensures
        r@ == files_report(files@),
{
    let ghost all = files@;
    let mut result = empty_result(0);
    assert(all.take(0) =~= Seq::<FileOutcome>::empty());
    for file in it: files.into_iter()
        invariant
            it.seq() == all,
            result@ == files_report(all.take(it.index() as int)),
    {
        let ghost i = it.index() as int;
        assert(all.take(i + 1).drop_last() =~= all.take(i));
        match file.outcome {
            Ok(report) => result.merge(report),
            Err(error) => {
                let head = text::joined3("DeepSeek Harness ", file.path.as_str(), ": ");
                result.add_error(text::joined(head.as_str(), error.as_str()));
            },
        }
    }
    assert(all.take(all.len() as int) =~= all);
    result
}

/// How many of the rows were written, how many were passed over, and what was
/// wrong with the others, in their order.
pub open spec fn outcomes_of(label: Seq<char>, rows: Seq<RowOutcome>) -> (int, int, Seq<Seq<char>>)
    decreases rows.len(),
{
    if rows.len() == 0 {
        (0, 0, Seq::empty())
    } else {
        let rest = outcomes_of(label, rows.drop_last());
        match rows.last().outcome {
            Ok(written) => if written {
                (rest.0 + 1, rest.1, rest.2)
            } else {
                (rest.0, rest.1 + 1, rest.2)
            },
            Err(error) => (rest.0, rest.1, rest.2.push(label + rows.last().id@ + ": "@ + error@)),
        }
    }
}

/// A report counts each row once: as imported where it was written, as skipped
/// where it was not, and as an error with its own message where it failed.
pub proof fn law_report_counts_each_row_once(
    report: SyncReport,
    label: Seq<char>,
    rows: Seq<RowOutcome>,
)
    ensures
        ({
            let after = with_rows(report, label, rows);
            let (written, passed, wrong) = outcomes_of(label, rows);
            &&& written + passed + wrong.len() == rows.len()
            &&& 0 <= written && 0 <= passed
            &&& report.imported + written <= u32::MAX ==> after.imported == report.imported
                + written
            &&& report.imported + written > u32::MAX ==> after.imported == u32::MAX
            &&& report.skipped + passed <= u32::MAX ==> after.skipped == report.skipped + passed
            &&& report.skipped + passed > u32::MAX ==> after.skipped == u32::MAX
            &&& after.errors == report.errors + wrong
            &&& after.files_scanned == report.files_scanned
            &&& after.data_changed == report.data_changed
        }),
    decreases rows.len(),
{
    if rows.len() > 0 {
        law_report_counts_each_row_once(report, label, rows.drop_last());
        let wrong = outcomes_of(label, rows.drop_last()).2;
        if let Err(error) = rows.last().outcome {
            let message = label + rows.last().id@ + ": "@ + error@;
            assert((report.errors + wrong).push(message) =~= report.errors + wrong.push(message));
        }
    }
    assert(report.errors + Seq::<Seq<char>>::empty() =~= report.errors);
}

/// Two reports in one have the counts of both and the errors of both, those of
/// the first before those of the second, and something changed where either
/// says so.
pub proof fn law_merged_reports_add_up(a: SyncReport, b: SyncReport)
    ensures
        a.imported + b.imported <= u32::MAX ==> a.merged(b).imported == a.imported + b.imported,
        a.skipped + b.skipped <= u32::MAX ==> a.merged(b).skipped == a.skipped + b.skipped,
        a.files_scanned + b.files_scanned <= u32::MAX ==> a.merged(b).files_scanned
            == a.files_scanned + b.files_scanned,
        a.imported + b.imported > u32::MAX ==> a.merged(b).imported == u32::MAX,
        a.skipped + b.skipped > u32::MAX ==> a.merged(b).skipped == u32::MAX,
        a.files_scanned + b.files_scanned > u32::MAX ==> a.merged(b).files_scanned == u32::MAX,
        a.merged(b).errors.len() == a.errors.len() + b.errors.len(),
        a.merged(b).errors.take(a.errors.len() as int) == a.errors,
        a.merged(b).errors.skip(a.errors.len() as int) == b.errors,
        a.merged(b).data_changed <==> a.data_changed || b.data_changed,
        a.with_imported().skipped == a.skipped && a.with_skipped().imported == a.imported,
        a.imported < u32::MAX ==> a.with_imported().imported == a.imported + 1,
        a.skipped < u32::MAX ==> a.with_skipped().skipped == a.skipped + 1,
{
    assert((a.errors + b.errors).take(a.errors.len() as int) =~= a.errors);
    assert((a.errors + b.errors).skip(a.errors.len() as int) =~= b.errors);
}

/// A source is read where it was changed after what was noted of it, and only
/// then; once all its rows were read, that change is noted, and otherwise none.
pub proof fn law_sources_are_read_when_changed(
    modified: i64,
    synced: i64,
    data_changed: bool,
    rows: Seq<RowOutcome>,
)
    ensures
        ({
            let state = SourceState { modified, synced };
            let run = codepilot_run(Some(state), data_changed, rows);
            &&& changed(state) <==> modified > synced
            &&& (forall|i: int| 0 <= i < rows.len() ==> (#[trigger] rows[i]).outcome is Ok)
                ==> mark_of(state, rows) == Some(modified)
            &&& (exists|i: int| 0 <= i < rows.len() && (#[trigger] rows[i]).outcome is Err)
                ==> mark_of(state, rows) is None
            &&& run.0.data_changed == data_changed
            &&& run.0.files_scanned == 1
            &&& modified <= synced ==> run.1 is None && run.0.imported == 0 && run.0.skipped == 0
                && run.0.errors.len() == 0
            &&& modified > synced ==> run.1 == mark_of(state, rows) && run.0.errors == outcomes_of(
                "CodePilot message "@,
                rows,
            ).2
            &&& codepilot_run(None, data_changed, rows).1 is None
            &&& codepilot_run(None, data_changed, rows).0 == nothing_in(0)
        }),
{
    let first = changed_in(nothing_in(1), data_changed);
    law_report_counts_each_row_once(first, "CodePilot message "@, rows);
    assert(first.errors + outcomes_of("CodePilot message "@, rows).2 =~= outcomes_of(
        "CodePilot message "@,
        rows,
    ).2);
    if exists|i: int| 0 <= i < rows.len() && (#[trigger] rows[i]).outcome is Err {
        let i = choose|i: int| 0 <= i < rows.len() && (#[trigger] rows[i]).outcome is Err;
        assert(!(rows[i].outcome is Ok));
    }
}

/// A run over files reports what each of them reported and, for a file that
/// could not be read, an error that names it; a file more adds to what was
/// there.
pub proof fn law_files_are_reported_one_by_one(files: Seq<FileOutcome>, file: FileOutcome)
    ensures
        files_report(Seq::<FileOutcome>::empty()) == nothing_in(0),
        nothing_in(0).imported == 0 && nothing_in(0).skipped == 0 && nothing_in(0).files_scanned
            == 0 && nothing_in(0).errors.len() == 0 && !nothing_in(0).data_changed,
        match file.outcome {
            Ok(result) => files_report(files.push(file)) == files_report(files).merged(result@),
            Err(error) => {
                let after = files_report(files.push(file));
                &&& after.errors == files_report(files).errors.push(
                    "DeepSeek Harness "@ + file.path@ + ": "@ + error@,
                )
                &&& after.imported == files_report(files).imported
                &&& after.skipped == files_report(files).skipped
            },
        },
{
    assert(files.push(file).drop_last() =~= files);
}

/// The sessions of DeepSeek Harness are below the directory that the
/// environment names; only where it names none, below the home directory.
pub proof fn law_harness_sessions_follow_the_environment(dir: Seq<char>, home: Option<Seq<char>>)
    ensures
        harness_sessions(Some(dir), home) == Some(paths::inside(dir, "sessions"@)),
        harness_sessions(None, Some(dir)) == Some(
            paths::inside(paths::inside(dir, ".dsh"@), "sessions"@),
        ),
        harness_sessions(None, None) is None,
{
}

} // verus!
