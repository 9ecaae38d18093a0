//! Backups of DeepSeek Harness's settings: how one is named, and which are
//! removed.

use vstd::prelude::*;
use crate::paths;
use crate::text;

verus! {

/// A file in the directory of the settings' backups, and when it was changed.
#[derive(Debug)]
pub struct SettingsBackup {
    pub path: String,
    pub modified_ns: Option<i128>,
}

/// The file of a backup is YAML by its name.
pub open spec fn yaml_named(path: Seq<char>) -> bool {
    paths::extension_of(path) == Some("yaml"@) || paths::extension_of(path) == Some("yml"@)
}

/// A time that is before another. One that is not known is before all others.
pub open spec fn changed_before(a: Option<i128>, b: Option<i128>) -> bool {
    match (a, b) {
        (None, Some(_)) => true,
        (Some(x), Some(y)) => x < y,
        _ => false,
    }
}

/// A backup in its place among those in the order of their change; it comes
/// after those of its own time.
pub open spec fn placed_backup(
    ordered: Seq<(Seq<char>, Option<i128>)>,
    backup: (Seq<char>, Option<i128>),
) -> Seq<(Seq<char>, Option<i128>)>
    decreases ordered.len(),
{
    if ordered.len() > 0 && changed_before(backup.1, ordered.last().1) {
        placed_backup(ordered.drop_last(), backup).push(ordered.last())
    } else {
        ordered.push(backup)
    }
}

/// The backups among files, in the order of their change.
pub open spec fn ordered_backups(files: Seq<SettingsBackup>) -> Seq<(Seq<char>, Option<i128>)>
    decreases files.len(),
{
    if files.len() == 0 {
        Seq::empty()
    } else {
        let rest = ordered_backups(files.drop_last());
        let file = files.last();
        if yaml_named(file.path@) {
            placed_backup(rest, (file.path@, file.modified_ns))
        } else {
            rest
        }
    }
}

/// The oldest backups, all but the `retain` newest.
pub open spec fn stale(files: Seq<SettingsBackup>, retain: int) -> Seq<Seq<char>> {
    let all = ordered_backups(files);
    if all.len() <= retain {
        Seq::empty()
    } else {
        all.take(all.len() - retain).map_values(|b: (Seq<char>, Option<i128>)| b.0)
    }
}

/// No backup was changed before one that precedes it.
pub open spec fn oldest_first(items: Seq<(Seq<char>, Option<i128>)>) -> bool {
    forall|i: int, j: int|
        0 <= i < j < items.len() ==> !changed_before(
            (#[trigger] items[j]).1,
            (#[trigger] items[i]).1,
        )
}

proof fn lemma_placed_backup(
    ordered: Seq<(Seq<char>, Option<i128>)>,
    backup: (Seq<char>, Option<i128>),
)
    requires
        oldest_first(ordered),
    ensures
        oldest_first(placed_backup(ordered, backup)),
        forall|i: int|
            0 <= i < placed_backup(ordered, backup).len() ==> (#[trigger] placed_backup(
                ordered,
                backup,
            )[i] == backup || ordered.contains(placed_backup(ordered, backup)[i])),
    decreases ordered.len(),
{
    let out = placed_backup(ordered, backup);
    if ordered.len() > 0 && changed_before(backup.1, ordered.last().1) {
        let fewer = ordered.drop_last();
        lemma_placed_backup(fewer, backup);
        let front = placed_backup(fewer, backup);
        assert forall|i: int| 0 <= i < out.len() implies (#[trigger] out[i] == backup
            || ordered.contains(out[i])) by {
            if i == front.len() {
                assert(ordered[ordered.len() - 1] == out[i]);
            } else if front[i] != backup {
                let k = choose|k: int| 0 <= k < fewer.len() && fewer[k] == front[i];
                assert(ordered[k] == out[i]);
            }
        }
        assert forall|i: int, j: int| 0 <= i < j < out.len() implies !changed_before(
            (#[trigger] out[j]).1,
            (#[trigger] out[i]).1,
        ) by {
            if j == front.len() {
                assert(out[i] == front[i]);
                if front[i] != backup {
                    assert(fewer.contains(front[i]));
                    let k = choose|k: int| 0 <= k < fewer.len() && fewer[k] == front[i];
                    assert(ordered[k] == front[i]);
                    assert(ordered[ordered.len() - 1] == out[j]);
                }
            } else {
                assert(out[i] == front[i] && out[j] == front[j]);
            }
        }
    } else {
        assert forall|i: int| 0 <= i < out.len() implies (#[trigger] out[i] == backup
            || ordered.contains(out[i])) by {
            if i < ordered.len() {
                assert(ordered[i] == out[i]);
            }
        }
        assert forall|i: int, j: int| 0 <= i < j < out.len() implies !changed_before(
            (#[trigger] out[j]).1,
            (#[trigger] out[i]).1,
        ) by {
            assert(ordered[ordered.len() - 1] == ordered.last());
            if j == ordered.len() {
                assert(out[i] == ordered[i]);
            } else {
                assert(out[i] == ordered[i] && out[j] == ordered[j]);
            }
        }
    }
}

/// Where backups are removed, `retain` are left, and none of those is older
/// than one that is removed.
pub proof fn law_newest_backups_are_kept(files: Seq<SettingsBackup>, retain: int)
    requires
        retain >= 0,
    ensures
        oldest_first(ordered_backups(files)),
        stale(files, retain).len() == if ordered_backups(files).len() <= retain {
            0
        } else {
            ordered_backups(files).len() - retain
        },
        forall|i: int|
            0 <= i < stale(files, retain).len() ==> #[trigger] stale(files, retain)[i]
                == ordered_backups(files)[i].0,
    decreases files.len(),
{
    if files.len() > 0 {
        law_newest_backups_are_kept(files.drop_last(), retain);
        if yaml_named(files.last().path@) {
            lemma_placed_backup(
                ordered_backups(files.drop_last()),
                (files.last().path@, files.last().modified_ns),
            );
        }
    }
}

/// What backups say.
pub open spec fn backups_of(items: Seq<(String, Option<i128>)>) -> Seq<(Seq<char>, Option<i128>)> {
    items.map_values(|b: (String, Option<i128>)| (b.0@, b.1))
}

fn is_changed_before(a: Option<i128>, b: Option<i128>) -> (r: bool)
    ensures
        r == changed_before(a, b),
{
    match (a, b) {
        (None, Some(_)) => true,
        (Some(x), Some(y)) => x < y,
        _ => false,
    }
}

fn place_backup(items: &mut Vec<(String, Option<i128>)>, backup: (String, Option<i128>))
    ensures
        backups_of(final(items)@) == placed_backup(
            backups_of(old(items)@),
            (backup.0@, backup.1),
        ),
{
    let ghost all = backups_of(items@);
    let ghost value = (backup.0@, backup.1);
    let mut i: usize = items.len();
    assert(all.take(i as int) =~= all);
    assert(placed_backup(all, value) =~= placed_backup(all, value) + all.skip(i as int));
    while i > 0 && is_changed_before(backup.1, items[i - 1].1)
        invariant
            i <= items@.len(),
            all == backups_of(items@),
            value == (backup.0@, backup.1),
            placed_backup(all, value) == placed_backup(all.take(i as int), value) + all.skip(
                i as int,
            ),
        decreases i,
    {
        proof {
            let part = all.take(i as int);
            assert(part.drop_last() =~= all.take(i - 1));
            assert(part.last() == all[i - 1]);
            assert(placed_backup(part, value) =~= placed_backup(all.take(i - 1), value).push(
                all[i - 1],
            ));
            assert(placed_backup(part, value) + all.skip(i as int) =~= placed_backup(
                all.take(i - 1),
                value,
            ) + all.skip(i - 1));
        }
        i -= 1;
    }
    proof {
        let part = all.take(i as int);
        if i > 0 {
            assert(part.last() == all[i - 1]);
        }
        assert(placed_backup(part, value) =~= part.push(value));
    }
    items.insert(i, backup);
    assert(backups_of(items@) =~= all.take(i as int).push(value) + all.skip(i as int));
}

/// The backups that are to be removed so that `retain` are left.
pub fn stale_backups(files: &Vec<SettingsBackup>, retain: usize) -> (r: Vec<String>)
    ensures
        paths::texts(r@) == stale(files@, retain as int),
{
    let mut items: Vec<(String, Option<i128>)> = Vec::new();
    let mut i: usize = 0;
    assert(backups_of(items@) =~= ordered_backups(files@.take(0)));
    while i < files.len()
        invariant
            i <= files@.len(),
            backups_of(items@) == ordered_backups(files@.take(i as int)),
        decreases files@.len() - i,
    {
        assert(files@.take(i + 1).drop_last() =~= files@.take(i as int));
        let named = match paths::extension(files[i].path.as_str()) {
            Some(extension) => text::same_text(extension.as_str(), "yaml") || text::same_text(
                extension.as_str(),
                "yml",
            ),
            None => false,
        };
        if named {
            place_backup(&mut items, (files[i].path.as_str().to_owned(), files[i].modified_ns));
        }
        i += 1;
    }
    assert(files@.take(files@.len() as int) =~= files@);
    let ghost all = backups_of(items@);
    let mut out: Vec<String> = Vec::new();
    if items.len() <= retain {
        assert(paths::texts(out@) =~= Seq::<Seq<char>>::empty());
        return out;
    }
    let count: usize = items.len() - retain;
    let ghost wanted = all.take(count as int).map_values(|b: (Seq<char>, Option<i128>)| b.0);
    let mut k: usize = 0;
    while k < count
        invariant
            k <= count <= items@.len(),
            all == backups_of(items@),
            wanted == all.take(count as int).map_values(|b: (Seq<char>, Option<i128>)| b.0),
            out@.len() == k,
            forall|j: int| 0 <= j < k ==> (#[trigger] out@[j])@ == wanted[j],
        decreases count - k,
    {
        assert(all[k as int] == (items@[k as int].0@, items@[k as int].1));
        out.push(items[k].0.as_str().to_owned());
        k += 1;
    }
    assert(paths::texts(out@) =~= wanted);
    out
}

/// The name of a backup of the settings; none is made of a blank text.
pub fn settings_backup_name(source: &str, stamp: &str) -> (r: Option<String>)
    ensures
        text::opt_text(r) == if text::blank(source@) {
            None
        } else {
            Some("settings_"@ + stamp@ + ".yaml"@)
        },
{
    if text::is_blank(source) {
        return None;
    }
    Some(text::joined3("settings_", stamp, ".yaml"))
}

proof fn lemma_placed_once(
    ordered: Seq<(Seq<char>, Option<i128>)>,
    backup: (Seq<char>, Option<i128>),
)
    ensures
        placed_backup(ordered, backup).to_multiset() == ordered.to_multiset().insert(backup),
    decreases ordered.len(),
{
    broadcast use vstd::seq_lib::group_to_multiset_ensures;

    if ordered.len() > 0 && changed_before(backup.1, ordered.last().1) {
        let fewer = ordered.drop_last();
        lemma_placed_once(fewer, backup);
        assert(ordered =~= fewer.push(ordered.last()));
        assert(placed_backup(ordered, backup).to_multiset() =~= ordered.to_multiset().insert(
            backup,
        ));
    }
}

/// A file counts as a backup, once, where its name ends in `.yaml` or `.yml`,
/// and is not looked at otherwise.
pub proof fn law_yaml_files_are_the_backups(files: Seq<SettingsBackup>, file: SettingsBackup)
    ensures
        ordered_backups(Seq::empty()).len() == 0,
        paths::extension_of(file.path@) == Some("yaml"@) || paths::extension_of(file.path@) == Some(
            "yml"@,
        ) ==> ordered_backups(files.push(file)).to_multiset() == ordered_backups(
            files,
        ).to_multiset().insert((file.path@, file.modified_ns)),
        paths::extension_of(file.path@) != Some("yaml"@) && paths::extension_of(file.path@) != Some(
            "yml"@,
        ) ==> ordered_backups(files.push(file)) == ordered_backups(files),
{
    assert(files.push(file).drop_last() =~= files);
    lemma_placed_once(ordered_backups(files), (file.path@, file.modified_ns));
}

/// Of two backups the earlier in the order was changed no later than the
/// other; one whose time of change is not known comes before those whose time
/// is. So a backup that is removed was changed no later than any that is left.
pub proof fn law_removed_backups_are_the_oldest(
    files: Seq<SettingsBackup>,
    retain: int,
    i: int,
    j: int,
)
    requires
        0 <= retain,
        0 <= i < j < ordered_backups(files).len(),
    ensures
        match (ordered_backups(files)[i].1, ordered_backups(files)[j].1) {
            (Some(earlier), Some(later)) => earlier <= later,
            (Some(_), None) => false,
            (None, _) => true,
        },
        i < ordered_backups(files).len() - retain ==> stale(files, retain)[i] == ordered_backups(
            files,
        )[i].0,
        ordered_backups(files).len() <= retain ==> stale(files, retain).len() == 0,
{
    law_newest_backups_are_kept(files, retain);
    let all = ordered_backups(files);
    assert(!changed_before(all[j].1, all[i].1));
}

} // verus!
