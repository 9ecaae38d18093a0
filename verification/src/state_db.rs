//! Where Codex keeps the state of its threads.
//!
//! The state is in `state_<version>.sqlite` inside of Codex's directory, and
//! in a second directory where Codex is told to keep it there.

use vstd::prelude::*;
use crate::json;
use crate::paths;
use crate::paths::DirEntry;
use crate::text;

verus! {

/// The name of the state's file where none is found.
pub const CODEX_STATE_DB_FILENAME: &'static str = "state_5.sqlite";

/// The text of a top-level key of a TOML document.
pub uninterp spec fn toml_text(document: Seq<char>, key: Seq<char>) -> Option<Seq<char>>;

/// `toml_edit::DocumentMut` from a text, then `get` and `as_str`: the text of
/// a top-level key, and nothing where the document is refused, the key is
/// missing or its value is no text. It depends on both arguments alone.
#[verifier::external_body]
fn read_toml_text(document: &str, key: &str) -> (r: Option<String>)
    ensures
        text::opt_text(r) == toml_text(document@, key@),
{
    document.parse::<toml_edit::DocumentMut>().ok().and_then(
        |parsed| parsed.get(key).and_then(|item| item.as_str().map(|value| value.to_string())),
    )
}

/// The number that decimal digits spell, the most significant first.
pub open spec fn spelled(digits: Seq<char>) -> Option<nat>
    decreases digits.len(),
{
    if digits.len() == 0 {
        Some(0)
    } else if '0' <= digits.last() && digits.last() <= '9' {
        match spelled(digits.drop_last()) {
            Some(n) => Some((n * 10 + (digits.last() as u32 - '0' as u32)) as nat),
            None => None,
        }
    } else {
        None
    }
}

/// The number of 32 bits that a text spells, with a `+` before it or without.
pub open spec fn parsed_u32(s: Seq<char>) -> Option<nat> {
    let digits = match text::after_prefix(s, "+"@) {
        Some(rest) => rest,
        None => s,
    };
    match spelled(digits) {
        Some(n) => if digits.len() > 0 && n <= u32::MAX {
            Some(n)
        } else {
            None
        },
        None => None,
    }
}

proof fn lemma_spelled_grows(digits: Seq<char>, k: int)
    requires
        0 <= k <= digits.len(),
    ensures
        spelled(digits) matches Some(n) ==> (spelled(digits.take(k)) matches Some(m) && m <= n),
    decreases digits.len(),
{
    if k == digits.len() {
        assert(digits.take(k) =~= digits);
    } else {
        let fewer = digits.drop_last();
        lemma_spelled_grows(fewer, k);
        assert(fewer.take(k) =~= digits.take(k));
    }
}

/// The number of 32 bits that a text spells.
pub fn parse_u32(s: &str) -> (r: Option<u32>)
    ensures
        match r {
            Some(n) => parsed_u32(s@) == Some(n as nat),
            None => parsed_u32(s@) is None,
        },
{
    let digits = match text::strip_prefix(s, "+") {
        Some(rest) => text::chars_of(rest.as_str()),
        None => text::chars_of(s),
    };
    if digits.len() == 0 {
        return None;
    }
    let mut n: u64 = 0;
    let mut i: usize = 0;
    while i < digits.len()
        invariant
            i <= digits@.len(),
            n <= u32::MAX,
            spelled(digits@.take(i as int)) == Some(n as nat),
            parsed_u32(s@) == match spelled(digits@) {
                Some(n) => if digits@.len() > 0 && n <= u32::MAX {
                    Some(n)
                } else {
                    None
                },
                None => None,
            },
        decreases digits@.len() - i,
    {
        let c = digits[i];
        proof {
            assert(digits@.take(i + 1).drop_last() =~= digits@.take(i as int));
            assert(digits@.take(i + 1).last() == c);
            lemma_spelled_grows(digits@, i + 1);
        }
        if !('0' <= c && c <= '9') {
            return None;
        }
        n = n * 10 + (c as u32 - '0' as u32) as u64;
        if n > u32::MAX as u64 {
            return None;
        }
        i += 1;
    }
    assert(digits@.take(digits@.len() as int) =~= digits@);
    Some(n as u32)
}

/// The version of the state that a file holds, by its name.
pub open spec fn version_of(name: Seq<char>) -> Option<nat> {
    match text::after_prefix(name, "state_"@) {
        Some(rest) => match text::before_suffix(rest, ".sqlite"@) {
            Some(version) => parsed_u32(version),
            None => None,
        },
        None => None,
    }
}

/// The version of the state that a file holds, by its name.
pub fn state_version(name: &str) -> (r: Option<u32>)
    ensures
        match r {
            Some(n) => version_of(name@) == Some(n as nat),
            None => version_of(name@) is None,
        },
{
    match text::strip_prefix(name, "state_") {
        Some(rest) => match text::strip_suffix(rest.as_str(), ".sqlite") {
            Some(version) => parse_u32(version.as_str()),
            None => None,
        },
        None => None,
    }
}

/// The version of an entry that is a file of the state.
pub open spec fn entry_version(entry: DirEntry) -> Option<nat> {
    if entry.is_file {
        version_of(entry.name@)
    } else {
        None
    }
}

/// The position of the entry with the highest version; of several, the last.
pub open spec fn newest_entry(entries: Seq<DirEntry>) -> Option<int>
    decreases entries.len(),
{
    if entries.len() == 0 {
        None
    } else {
        let rest = newest_entry(entries.drop_last());
        match entry_version(entries.last()) {
            Some(version) => match rest {
                Some(i) => if entry_version(entries[i])->0 <= version {
                    Some(entries.len() - 1)
                } else {
                    rest
                },
                None => Some(entries.len() - 1),
            },
            None => rest,
        }
    }
}

/// A directory that may hold the state, with its entries. One that cannot be
/// read has none.
#[derive(Debug)]
pub struct StateDir {
    pub path: String,
    pub entries: Vec<DirEntry>,
}

/// Where the state is in a directory: the file of the highest version, or
/// else the one that is to be.
pub open spec fn state_path(dir: StateDir) -> Seq<char> {
    match newest_entry(dir.entries@) {
        Some(i) => paths::inside(dir.path@, dir.entries@[i].name@),
        None => paths::inside(dir.path@, CODEX_STATE_DB_FILENAME@),
    }
}

proof fn lemma_newest_entry(entries: Seq<DirEntry>)
    ensures
        newest_entry(entries) matches Some(i) ==> 0 <= i < entries.len() && entry_version(
            entries[i],
        ) is Some,
    decreases entries.len(),
{
    if entries.len() > 0 {
        lemma_newest_entry(entries.drop_last());
    }
}

/// Where the state is in a directory.
pub fn newest_state_db_path(dir: &StateDir) -> (r: String)
    ensures
        r@ == state_path(*dir),
{
    let mut best: Option<(usize, u32)> = None;
    let mut i: usize = 0;
    while i < dir.entries.len()
        invariant
            i <= dir.entries@.len(),
            match best {
                Some(b) => b.0 < i && newest_entry(dir.entries@.take(i as int)) == Some(
                    b.0 as int,
                ) && entry_version(dir.entries@[b.0 as int]) == Some(b.1 as nat),
                None => newest_entry(dir.entries@.take(i as int)) is None,
            },
        decreases dir.entries@.len() - i,
    {
        proof {
            let more = dir.entries@.take(i + 1);
            assert(more.drop_last() =~= dir.entries@.take(i as int));
            assert(more.last() == dir.entries@[i as int]);
            if let Some(b) = best {
                assert(more[b.0 as int] == dir.entries@[b.0 as int]);
            }
        }
        if dir.entries[i].is_file {
            if let Some(version) = state_version(dir.entries[i].name.as_str()) {
                let higher = match best {
                    Some(b) => b.1 <= version,
                    None => true,
                };
                if higher {
                    best = Some((i, version));
                }
            }
        }
        i += 1;
    }
    assert(dir.entries@.take(dir.entries@.len() as int) =~= dir.entries@);
    match best {
        Some(b) => paths::join_path(dir.path.as_str(), dir.entries[b.0].name.as_str()),
        None => paths::join_path(dir.path.as_str(), CODEX_STATE_DB_FILENAME),
    }
}

/// No file of the state in a directory has a higher version than the one that
/// is taken.
pub proof fn law_newest_state_is_taken(entries: Seq<DirEntry>, k: int)
    requires
        0 <= k < entries.len(),
        entry_version(entries[k]) is Some,
    ensures
        newest_entry(entries) matches Some(i) && 0 <= i < entries.len() && entry_version(
            entries[i],
        ) is Some && entry_version(entries[k])->0 <= entry_version(entries[i])->0,
    decreases entries.len(),
{
    lemma_newest_entry(entries);
    lemma_newest_entry(entries.drop_last());
    if k < entries.len() - 1 {
        law_newest_state_is_taken(entries.drop_last(), k);
    }
}

/// A path that the user wrote, where `~` stands for the home directory.
pub open spec fn user_path(raw: Seq<char>, home: Seq<char>) -> Seq<char> {
    if raw == "~"@ {
        home
    } else {
        match text::after_prefix(raw, "~/"@) {
            Some(rest) => paths::inside(home, rest),
            None => match text::after_prefix(raw, "~\\"@) {
                Some(rest) => paths::inside(home, rest),
                None => raw,
            },
        }
    }
}

/// A path that the user wrote, where `~` stands for the home directory.
pub fn resolve_user_path(raw: &str, home: &str) -> (r: String)
    ensures
        r@ == user_path(raw@, home@),
{
    if text::same_text(raw, "~") {
        return home.to_owned();
    }
    if let Some(rest) = text::strip_prefix(raw, "~/") {
        return paths::join_path(home, rest.as_str());
    }
    if let Some(rest) = text::strip_prefix(raw, "~\\") {
        return paths::join_path(home, rest.as_str());
    }
    raw.to_owned()
}

/// The directory that a setting names, unless it is blank.
pub open spec fn set_dir(raw: Option<Seq<char>>, home: Seq<char>) -> Option<Seq<char>> {
    match raw {
        Some(value) => if text::blank(value) {
            None
        } else {
            Some(user_path(text::trimmed(value), home))
        },
        None => None,
    }
}

/// The directory that a setting names, unless it is blank.
pub fn dir_from_setting(raw: Option<&str>, home: &str) -> (r: Option<String>)
    ensures
        text::opt_text(r) == set_dir(json::opt_str(raw), home@),
{
    match raw {
        Some(value) => {
            let trimmed = text::trim(value);
            if trimmed.as_str().is_empty() {
                None
            } else {
                Some(resolve_user_path(trimmed.as_str(), home))
            }
        },
        None => None,
    }
}

/// The second directory of the state: the one that Codex's configuration
/// names, or else the one that the environment names.
pub open spec fn second_dir(
    configured: Option<Seq<char>>,
    environment: Option<Seq<char>>,
    home: Seq<char>,
) -> Option<Seq<char>> {
    match set_dir(configured, home) {
        Some(dir) => Some(dir),
        None => set_dir(environment, home),
    }
}

/// The second directory of the state, from what the configuration and the
/// environment say.
pub fn sqlite_home(configured: Option<&str>, environment: Option<&str>, home: &str) -> (r: Option<
    String,
>)
    ensures
        text::opt_text(r) == second_dir(
            json::opt_str(configured),
            json::opt_str(environment),
            home@,
        ),
{
    match dir_from_setting(configured, home) {
        Some(dir) => Some(dir),
        None => dir_from_setting(environment, home),
    }
}

/// The second directory of the state, from the text of Codex's configuration
/// and the environment.
pub fn codex_sqlite_home(config_text: &str, environment: Option<&str>, home: &str) -> (r: Option<
    String,
>)
    ensures
        text::opt_text(r) == second_dir(
            toml_text(config_text@, "sqlite_home"@),
            json::opt_str(environment),
            home@,
        ),
{
    match read_toml_text(config_text, "sqlite_home") {
        Some(value) => sqlite_home(Some(value.as_str()), environment, home),
        None => sqlite_home(None, environment, home),
    }
}

/// Where the state is in all: in Codex's directory, and in the second one
/// where that is another place.
pub open spec fn state_paths(config: StateDir, second: Option<StateDir>) -> Seq<Seq<char>> {
    match second {
        Some(dir) => if paths::same_place(state_path(config), state_path(dir)) {
            seq![state_path(config)]
        } else {
            seq![state_path(config), state_path(dir)]
        },
        None => seq![state_path(config)],
    }
}

/// Where the state is in all.
pub fn codex_state_db_paths(config: &StateDir, second: Option<&StateDir>) -> (r: Vec<String>)
    ensures
        paths::texts(r@) == state_paths(
            *config,
            match second {
                Some(dir) => Some(*dir),
                None => None,
            },
        ),
{
    let mut out: Vec<String> = Vec::new();
    let first = newest_state_db_path(config);
    out.push(first);
    if let Some(dir) = second {
        let path = newest_state_db_path(dir);
        if !paths::is_same_place(out[0].as_str(), path.as_str()) {
            out.push(path);
            assert(paths::texts(out@) =~= seq![state_path(*config), state_path(*dir)]);
            return out;
        }
    }
    assert(paths::texts(out@) =~= seq![state_path(*config)]);
    out
}

proof fn lemma_decimal_is_spelled(n: nat)
    ensures
        spelled(text::decimal(n)) == Some(n),
    decreases n,
{
    let digits = text::decimal(n);
    text::law_decimal_is_digits(n);
    if n < 10 {
        text::law_decimal_is_the_number(n);
        assert(digits.drop_last() =~= Seq::<char>::empty());
        assert(spelled(Seq::<char>::empty()) == Some(0nat));
        assert(digits.last() == digits[0]);
    } else {
        text::law_decimal_is_the_number(n);
        lemma_decimal_is_spelled(n / 10);
        assert(n == (n / 10) * 10 + n % 10);
    }
}

/// A text is a number of 32 bits where it is that number in decimal, with or
/// without a `+`; what holds anything but digits, what is empty, and what is
/// too large is none.
pub proof fn law_numbers_are_read(n: nat, s: Seq<char>, i: int)
    ensures
        n <= u32::MAX ==> parsed_u32(text::decimal(n)) == Some(n),
        n <= u32::MAX ==> parsed_u32("+"@ + text::decimal(n)) == Some(n),
        n > u32::MAX ==> parsed_u32(text::decimal(n)) is None,
        parsed_u32(Seq::empty()) is None,
        0 < i < s.len() && !('0' <= s[i] && s[i] <= '9') ==> parsed_u32(s) is None,
        s.len() > 0 && s[0] != '+' && !('0' <= s[0] && s[0] <= '9') ==> parsed_u32(s) is None,
{
    reveal_strlit("+");
    assert("+"@ =~= seq!['+']);
    text::law_decimal_is_digits(n);
    lemma_decimal_is_spelled(n);
    let digits = text::decimal(n);
    assert(digits.subrange(0, 1)[0] == digits[0]);
    assert(!text::begins(digits, "+"@));
    text::law_strip(digits, "+"@);
    if s.len() > 0 {
        assert(s.subrange(0, 1)[0] == s[0]);
        if text::begins(s, "+"@) {
            let rest = s.subrange(1, s.len() as int);
            if 0 < i < s.len() && !('0' <= s[i] && s[i] <= '9') {
                assert(rest[i - 1] == s[i]);
                lemma_not_spelled(rest, i - 1);
            }
        } else {
            if 0 < i < s.len() && !('0' <= s[i] && s[i] <= '9') {
                lemma_not_spelled(s, i);
            }
            if !('0' <= s[0] && s[0] <= '9') {
                lemma_not_spelled(s, 0);
            }
        }
    }
}

proof fn lemma_not_spelled(digits: Seq<char>, i: int)
    requires
        0 <= i < digits.len(),
        !('0' <= digits[i] && digits[i] <= '9'),
    ensures
        spelled(digits) is None,
    decreases digits.len(),
{
    if i < digits.len() - 1 {
        assert(digits.drop_last()[i] == digits[i]);
        lemma_not_spelled(digits.drop_last(), i);
    } else {
        assert(digits.last() == digits[i]);
    }
}

/// A file holds the state of a version where it is named after it; a directory
/// of that name holds none.
pub proof fn law_names_of_states(n: nat, entry: DirEntry)
    requires
        n <= u32::MAX,
    ensures
        version_of("state_"@ + text::decimal(n) + ".sqlite"@) == Some(n),
        entry.name@ == "state_"@ + text::decimal(n) + ".sqlite"@ && entry.is_file ==> entry_version(
            entry,
        ) == Some(n),
        !entry.is_file ==> entry_version(entry) is None,
{
    let number = text::decimal(n);
    law_numbers_are_read(n, number, 0);
    let rest = number + ".sqlite"@;
    assert("state_"@ + number + ".sqlite"@ =~= "state_"@ + rest);
    text::law_strip(rest, "state_"@);
    text::law_strip(number, ".sqlite"@);
}

/// The state is in the file of the highest version, and of several of one
/// version in the last; where there is none, in the file that is to be.
pub proof fn law_where_the_state_is(dir: StateDir, i: int)
    ensures
        0 <= i < dir.entries@.len() && entry_version(dir.entries@[i]) is Some && (forall|k: int|
            0 <= k < dir.entries@.len() ==> (entry_version(#[trigger] dir.entries@[k]) matches Some(
                version,
            ) ==> version < entry_version(dir.entries@[i])->0 || (version == entry_version(
                dir.entries@[i],
            )->0 && k <= i))) ==> state_path(dir) == paths::inside(
            dir.path@,
            dir.entries@[i].name@,
        ),
        (forall|k: int|
            0 <= k < dir.entries@.len() ==> entry_version(#[trigger] dir.entries@[k]) is None)
            ==> state_path(dir) == paths::inside(dir.path@, "state_5.sqlite"@),
{
    let entries = dir.entries@;
    lemma_newest_entry(entries);
    if 0 <= i < entries.len() && entry_version(entries[i]) is Some && (forall|k: int|
        0 <= k < entries.len() ==> (entry_version(#[trigger] entries[k]) matches Some(version)
            ==> version < entry_version(entries[i])->0 || (version == entry_version(entries[i])->0
            && k <= i))) {
        law_newest_state_is_taken(entries, i);
        lemma_last_of_the_newest(entries, i);
    }
}

proof fn lemma_last_of_the_newest(entries: Seq<DirEntry>, k: int)
    requires
        0 <= k < entries.len(),
        entry_version(entries[k]) is Some,
    ensures
        newest_entry(entries) matches Some(i) && (entry_version(entries[k]) == entry_version(
            entries[i],
        ) ==> k <= i),
    decreases entries.len(),
{
    let fewer = entries.drop_last();
    law_newest_state_is_taken(entries, k);
    lemma_newest_entry(fewer);
    if k < fewer.len() {
        assert(fewer[k] == entries[k]);
        lemma_last_of_the_newest(fewer, k);
        law_newest_state_is_taken(fewer, k);
        let j = newest_entry(fewer)->0;
        assert(fewer[j] == entries[j]);
    } else if let Some(j) = newest_entry(fewer) {
        assert(fewer[j] == entries[j]);
    }
}

/// In a path that the user wrote, `~` alone or before a slash of either kind
/// stands for the home directory, and any other path for itself.
pub proof fn law_paths_of_the_user(rest: Seq<char>, home: Seq<char>, other: Seq<char>)
    requires
        !text::begins(other, "~"@),
    ensures
        user_path("~"@, home) == home,
        user_path("~/"@ + rest, home) == paths::inside(home, rest),
        user_path("~\\"@ + rest, home) == paths::inside(home, rest),
        user_path(other, home) == other,
{
    reveal_strlit("~");
    reveal_strlit("~/");
    reveal_strlit("~\\");
    assert("~"@ =~= seq!['~'] && "~/"@ =~= seq!['~', '/'] && "~\\"@ =~= seq!['~', '\\']);
    text::law_strip(rest, "~/"@);
    text::law_strip(rest, "~\\"@);
    let slashed = "~/"@ + rest;
    let other_slash = "~\\"@ + rest;
    assert(slashed.len() >= 2 && other_slash.len() >= 2);
    assert(other_slash.subrange(0, 2)[1] == '\\');
    assert(!text::begins(other_slash, "~/"@));
    if other.len() > 0 {
        assert(other.subrange(0, 1)[0] == other[0]);
        assert(other[0] != '~') by {
            if other[0] == '~' {
                assert(other.subrange(0, 1) =~= "~"@);
            }
        }
        if other.len() >= 2 {
            assert(other.subrange(0, 2)[0] == other[0]);
        }
    }
}

/// The second directory of the state is the one that the configuration names,
/// else the one that the environment names; a blank setting names none, and
/// white space around one is left out.
pub proof fn law_second_directory(
    configured: Seq<char>,
    environment: Option<Seq<char>>,
    home: Seq<char>,
)
    ensures
        !text::blank(configured) ==> second_dir(Some(configured), environment, home) == Some(
            user_path(text::trimmed(configured), home),
        ),
        text::blank(configured) ==> second_dir(Some(configured), environment, home) == second_dir(
            None,
            environment,
            home,
        ),
        environment matches Some(dir) ==> (!text::blank(dir) ==> second_dir(None, environment, home)
            == Some(user_path(text::trimmed(dir), home))),
        environment matches Some(dir) ==> (text::blank(dir) ==> second_dir(None, environment, home)
            is None),
        second_dir(None, None, home) is None,
{
}

/// The state is looked for in Codex's directory first, and in the second one
/// too where that is another place.
pub proof fn law_all_places_of_the_state(config: StateDir, second: StateDir)
    ensures
        state_paths(config, None) == seq![state_path(config)],
        paths::same_place(state_path(config), state_path(second)) ==> state_paths(
            config,
            Some(second),
        ) == seq![state_path(config)],
        !paths::same_place(state_path(config), state_path(second)) ==> state_paths(
            config,
            Some(second),
        ) == seq![state_path(config), state_path(second)],
{
}

} // verus!
