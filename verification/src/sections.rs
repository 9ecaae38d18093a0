//! Top-level sections of a YAML text.
//!
//! A section begins with a line that holds its key and goes on up to the next
//! line with a top-level key. It is cut out and put in as text, so that all
//! else stays as it is, character by character.

use vstd::prelude::*;
use crate::paths;
use crate::text;

verus! {

/// A character that may follow the colon of a key.
pub open spec fn ends_key(c: char) -> bool {
    c == ' ' || c == '\t' || c == '\r' || c == '\n'
}

/// A colon that ends a key: nothing or a blank follows it.
pub open spec fn key_colon(line: Seq<char>, i: int) -> bool {
    line[i] == ':' && (i + 1 == line.len() || ends_key(line[i + 1]))
}

/// A line whose first character stands alone: it marks a list item or a key
/// that is written apart from its value.
pub open spec fn marked_by(line: Seq<char>, mark: char) -> bool {
    line.len() > 0 && line[0] == mark && (line.len() == 1 || ends_key(line[1]))
}

/// A line that begins with a top-level key. Colons within the key, quoted or
/// not, have no blank behind them or stand before the one that ends the key.
pub open spec fn key_line(line: Seq<char>) -> bool {
    line.len() > 0 && line[0] != ' ' && line[0] != '\t' && line[0] != '#' && !marked_by(line, '-')
        && (marked_by(line, '?') || exists|i: int|
        0 <= i < line.len() && #[trigger] key_colon(line, i))
}

/// Whether a line begins with a top-level key.
pub fn is_top_level_key_line(line: &str) -> (r: bool)
    ensures
        r == key_line(line@),
{
    let chars = text::chars_of(line);
    if chars.len() == 0 {
        return false;
    }
    let first = chars[0];
    if first == ' ' || first == '\t' || first == '#' {
        return false;
    }
    if first == '-' || first == '?' {
        if chars.len() == 1 || is_key_end(chars[1]) {
            return first == '?';
        }
    }
    let mut i: usize = 0;
    while i < chars.len()
        invariant
            i <= chars@.len(),
            chars@ == line@,
            key_line(line@) == exists|k: int|
                0 <= k < line@.len() && #[trigger] key_colon(line@, k),
            forall|k: int| 0 <= k < i ==> !#[trigger] key_colon(line@, k),
        decreases chars@.len() - i,
    {
        if chars[i] == ':' && (i + 1 == chars.len() || is_key_end(chars[i + 1])) {
            assert(key_colon(line@, i as int));
            return true;
        }
        i += 1;
    }
    false
}

/// Whether a character may follow the colon of a key.
fn is_key_end(c: char) -> (r: bool)
    ensures
        r == ends_key(c),
{
    c == ' ' || c == '\t' || c == '\r' || c == '\n'
}

/// A text behind the blanks that it begins with.
pub open spec fn behind_blanks(s: Seq<char>) -> Seq<char>
    decreases s.len(),
{
    if s.len() > 0 && (s[0] == ' ' || s[0] == '\t') {
        behind_blanks(s.skip(1))
    } else {
        s
    }
}

/// A line that begins with a key as it is written, blanks, and the colon that
/// ends the key.
pub open spec fn begins_with_key(line: Seq<char>, written: Seq<char>) -> bool {
    text::after_prefix(line, written) matches Some(after) && ({
        let rest = behind_blanks(after);
        rest.len() > 0 && key_colon(rest, 0)
    })
}

/// A line that begins the section of a key. The key may stand in quotes.
pub open spec fn section_line(line: Seq<char>, key: Seq<char>) -> bool {
    key_line(line) && (begins_with_key(line, key) || begins_with_key(line, "\""@ + key + "\""@)
        || begins_with_key(line, "'"@ + key + "'"@))
}

/// Whether a line begins with a key as it is written, blanks, and the colon
/// that ends the key.
fn is_key_at_front(line: &str, written: &str) -> (r: bool)
    ensures
        r == begins_with_key(line@, written@),
{
    let after = match text::strip_prefix(line, written) {
        Some(after) => after,
        None => return false,
    };
    let chars = text::chars_of(after.as_str());
    let mut i: usize = 0;
    assert(chars@.skip(0) =~= chars@);
    while i < chars.len() && (chars[i] == ' ' || chars[i] == '\t')
        invariant
            i <= chars@.len(),
            behind_blanks(chars@) == behind_blanks(chars@.skip(i as int)),
        decreases chars@.len() - i,
    {
        assert(chars@.skip(i as int).skip(1) =~= chars@.skip(i + 1));
        i += 1;
    }
    proof {
        let rest = chars@.skip(i as int);
        assert(behind_blanks(rest) == rest);
        if rest.len() > 1 {
            assert(rest[1] == chars@[i + 1]);
        }
    }
    i < chars.len() && chars[i] == ':' && (i + 1 == chars.len() || is_key_end(chars[i + 1]))
}

/// Whether a line begins the section of a key.
fn is_section_line(line: &str, key: &str) -> (r: bool)
    ensures
        r == section_line(line@, key@),
{
    if !is_top_level_key_line(line) {
        return false;
    }
    let double = text::joined3("\"", key, "\"");
    let single = text::joined3("'", key, "'");
    is_key_at_front(line, key) || is_key_at_front(line, double.as_str()) || is_key_at_front(
        line,
        single.as_str(),
    )
}

/// The lines of a text.
pub open spec fn lines_of(raw: Seq<char>) -> Seq<Seq<char>> {
    paths::pieces(raw, '\n')
}

/// The first line from `from` on that begins the section of a key.
pub open spec fn section_start(lines: Seq<Seq<char>>, key: Seq<char>, from: int) -> Option<int>
    decreases lines.len() - from,
{
    if from < 0 || from >= lines.len() {
        None
    } else if section_line(lines[from], key) {
        Some(from)
    } else {
        section_start(lines, key, from + 1)
    }
}

/// The first line from `from` on that begins with a top-level key.
pub open spec fn next_key(lines: Seq<Seq<char>>, from: int) -> Option<int>
    decreases lines.len() - from,
{
    if from < 0 || from >= lines.len() {
        None
    } else if key_line(lines[from]) {
        Some(from)
    } else {
        next_key(lines, from + 1)
    }
}

/// How many characters stand before a line.
pub open spec fn offset_of(lines: Seq<Seq<char>>, line: int) -> int
    decreases line,
{
    if line <= 0 {
        0
    } else {
        offset_of(lines, line - 1) + lines[line - 1].len() + 1
    }
}

/// Where the first section of a key begins and ends, in characters.
pub open spec fn section_range(raw: Seq<char>, key: Seq<char>) -> Option<(int, int)> {
    let lines = lines_of(raw);
    match section_start(lines, key, 0) {
        Some(start) => Some(
            (
                offset_of(lines, start),
                match next_key(lines, start + 1) {
                    Some(end) => offset_of(lines, end),
                    None => raw.len() as int,
                },
            ),
        ),
        None => None,
    }
}

/// The lines and the marks between them make the text.
proof fn lemma_length(raw: Seq<char>)
    ensures
        lines_of(raw).len() >= 1,
        offset_of(lines_of(raw), lines_of(raw).len() as int) == raw.len() + 1,
    decreases raw.len(),
{
    let lines = lines_of(raw);
    if raw.len() == 0 {
        assert(offset_of(lines, 0) == 0);
        assert(offset_of(lines, 1) == 1);
    } else {
        let fewer = lines_of(raw.drop_last());
        lemma_length(raw.drop_last());
        if raw.last() == '\n' {
            lemma_offset_prefix(fewer, lines, fewer.len() as int);
            assert(offset_of(lines, lines.len() as int) == offset_of(lines, lines.len() - 1) + 1);
        } else {
            lemma_offset_prefix(fewer, lines, fewer.len() - 1);
            assert(offset_of(fewer, fewer.len() as int) == offset_of(fewer, fewer.len() - 1)
                + fewer[fewer.len() - 1].len() + 1);
            assert(offset_of(lines, lines.len() as int) == offset_of(lines, lines.len() - 1)
                + lines[lines.len() - 1].len() + 1);
        }
    }
}

proof fn lemma_offset_prefix(a: Seq<Seq<char>>, b: Seq<Seq<char>>, n: int)
    requires
        0 <= n <= a.len(),
        n <= b.len(),
        forall|i: int| 0 <= i < n ==> a[i] == b[i],
    ensures
        offset_of(a, n) == offset_of(b, n),
    decreases n,
{
    if n > 0 {
        lemma_offset_prefix(a, b, n - 1);
    }
}

proof fn lemma_offset_grows(lines: Seq<Seq<char>>, i: int, j: int)
    requires
        0 <= i <= j <= lines.len(),
    ensures
        0 <= offset_of(lines, i),
        offset_of(lines, i) + (j - i) <= offset_of(lines, j),
        i < j ==> offset_of(lines, i) + lines[i].len() + 1 <= offset_of(lines, j),
    decreases j,
{
    if i < j {
        lemma_offset_grows(lines, i, j - 1);
    } else if i > 0 {
        lemma_offset_grows(lines, i - 1, j - 1);
    }
}

proof fn lemma_starts(lines: Seq<Seq<char>>, key: Seq<char>, from: int)
    requires
        0 <= from,
    ensures
        section_start(lines, key, from) matches Some(s) ==> from <= s < lines.len() && section_line(
            lines[s],
            key,
        ),
        next_key(lines, from) matches Some(e) ==> from <= e < lines.len() && key_line(lines[e]),
    decreases lines.len() - from,
{
    if from < lines.len() {
        lemma_starts(lines, key, from + 1);
    }
}

/// A section lies in its text and is not empty.
pub proof fn lemma_range(raw: Seq<char>, key: Seq<char>)
    ensures
        section_range(raw, key) matches Some(range) ==> 0 <= range.0 < range.1 <= raw.len(),
{
    let lines = lines_of(raw);
    lemma_length(raw);
    lemma_starts(lines, key, 0);
    if let Some(s) = section_start(lines, key, 0) {
        lemma_starts(lines, key, s + 1);
        lemma_offset_grows(lines, s, lines.len() as int);
        match next_key(lines, s + 1) {
            Some(e) => {
                lemma_offset_grows(lines, s, e);
                lemma_offset_grows(lines, e, lines.len() as int);
            },
            None => {},
        }
    }
}

/// Where the first section of a key begins and ends, in characters.
pub fn find_section_range(raw: &str, key: &str) -> (r: Option<(usize, usize)>)
    ensures
        match r {
            Some(range) => section_range(raw@, key@) == Some((range.0 as int, range.1 as int))
                && range.0 < range.1 <= raw@.len(),
            None => section_range(raw@, key@) is None,
        },
{
    let total: usize = raw.unicode_len();
    let lines = paths::split_at_mark(raw, '\n');
    let ghost all = lines_of(raw@);
    proof {
        lemma_length(raw@);
        lemma_range(raw@, key@);
    }
    let mut start: Option<usize> = None;
    let mut offset: usize = 0;
    let mut i: usize = 0;
    let ghost mut first: int = 0;
    while i < lines.len()
        invariant
            i <= lines@.len(),
            total == raw@.len(),
            all == lines_of(raw@),
            all == paths::texts(lines@),
            all.len() == lines@.len(),
            offset_of(all, all.len() as int) == total + 1,
            section_range(raw@, key@) matches Some(range) ==> 0 <= range.0 < range.1 <= total,
            i < lines@.len() ==> offset == offset_of(all, i as int),
            match start {
                None => section_start(all, key@, 0) == section_start(all, key@, i as int),
                Some(s) => {
                    &&& section_start(all, key@, 0) == Some(first)
                    &&& 0 <= first < i
                    &&& s == offset_of(all, first)
                    &&& next_key(all, first + 1) == next_key(all, i as int)
                },
            },
        decreases lines@.len() - i,
    {
        let line = lines[i].as_str();
        assert(all[i as int] == line@);
        match start {
            None => {
                if is_section_line(line, key) {
                    start = Some(offset);
                    proof {
                        first = i as int;
                    }
                }
            },
            Some(s) => {
                if is_top_level_key_line(line) {
                    return Some((s, offset));
                }
            },
        }
        proof {
            lemma_offset_grows(all, i + 1, all.len() as int);
            assert(offset_of(all, i + 1) == offset_of(all, i as int) + all[i as int].len() + 1);
        }
        let length: usize = line.unicode_len();
        if i + 1 < lines.len() {
            proof {
                lemma_offset_grows(all, i + 1, all.len() as int);
            }
            offset = offset + length + 1;
        }
        i += 1;
    }
    match start {
        Some(s) => Some((s, total)),
        None => None,
    }
}

/// A text without the sections of a key.
pub open spec fn without_sections(raw: Seq<char>, key: Seq<char>) -> Seq<char>
    decreases raw.len(),
{
    match section_range(raw, key) {
        Some(range) => {
            proof {
                lemma_range(raw, key);
            }
            raw.take(range.0) + without_sections(raw.skip(range.1), key)
        },
        None => raw,
    }
}

/// Cuts a text in two.
fn cut(raw: &str, at: usize) -> (r: (String, String))
    requires
        at <= raw@.len(),
    ensures
        r.0@ == raw@.take(at as int),
        r.1@ == raw@.skip(at as int),
{
    let chars = text::chars_of(raw);
    let head = text::string_of(&chars, 0, at);
    let tail = text::string_of(&chars, at, chars.len());
    assert(raw@.subrange(0, at as int) =~= raw@.take(at as int));
    assert(raw@.subrange(at as int, raw@.len() as int) =~= raw@.skip(at as int));
    (head, tail)
}

/// A text without the sections of a key.
pub fn remove_all_sections(raw: &str, key: &str) -> (r: String)
    ensures
        r@ == without_sections(raw@, key@),
{
    let mut result = String::new();
    let mut rest = raw.to_owned();
    assert(result@ + without_sections(rest@, key@) =~= without_sections(raw@, key@));
    let mut next = find_section_range(rest.as_str(), key);
    while next.is_some()
        invariant
            result@ + without_sections(rest@, key@) == without_sections(raw@, key@),
            match next {
                Some(range) => section_range(rest@, key@) == Some((range.0 as int, range.1 as int))
                    && range.0 < range.1 <= rest@.len(),
                None => section_range(rest@, key@) is None,
            },
        decreases rest@.len(),
    {
        let range: (usize, usize) = match next {
            Some(range) => range,
            None => (0, 0),
        };
        let ghost before = rest@;
        let head = cut(rest.as_str(), range.0).0;
        let tail = cut(rest.as_str(), range.1).1;
        proof {
            assert(result@ + (before.take(range.0 as int) + without_sections(tail@, key@)) =~= (
            result@ + before.take(range.0 as int)) + without_sections(tail@, key@));
        }
        result.append(head.as_str());
        rest = tail;
        next = find_section_range(rest.as_str(), key);
    }
    result.append(rest.as_str());
    result
}

/// A line break where a section that ends without one would run into what
/// follows.
pub open spec fn seam(section: Seq<char>, rest: Seq<char>) -> Seq<char> {
    if !text::finishes(section, "\n"@) && rest.len() > 0 && !text::begins(rest, "\n"@) {
        "\n"@
    } else {
        Seq::empty()
    }
}

/// A line break where a text that is not empty ends without one.
pub open spec fn closing(raw: Seq<char>) -> Seq<char> {
    if raw.len() > 0 && !text::finishes(raw, "\n"@) {
        "\n"@
    } else {
        Seq::empty()
    }
}

/// A text in which `section` takes the place of the sections of a key: of the
/// first of them, while the others go; at the end, where there is none.
pub open spec fn with_section(raw: Seq<char>, key: Seq<char>, section: Seq<char>) -> Seq<char> {
    match section_range(raw, key) {
        Some(range) => {
            let rest = without_sections(raw.skip(range.1), key);
            raw.take(range.0) + section + seam(section, rest) + rest
        },
        None => {
            let all = raw + closing(raw) + section;
            if text::finishes(all, "\n"@) {
                all
            } else {
                all + "\n"@
            }
        },
    }
}

/// A text in which `section` takes the place of the sections of a key.
pub fn replace_section_text(raw: &str, key: &str, section: &str) -> (r: String)
    ensures
        r@ == with_section(raw@, key@, section@),
{
    match find_section_range(raw, key) {
        Some(range) => {
            let head = cut(raw, range.0).0;
            let tail = cut(raw, range.1).1;
            let rest = remove_all_sections(tail.as_str(), key);
            let mut result = text::joined(head.as_str(), section);
            if !text::ends_with(section, "\n") && !rest.as_str().is_empty() && !text::starts_with(
                rest.as_str(),
                "\n",
            ) {
                result.append("\n");
            } else {
                assert(result@ + Seq::<char>::empty() =~= result@);
            }
            result.append(rest.as_str());
            result
        },
        None => {
            let mut result = raw.to_owned();
            if !raw.is_empty() && !text::ends_with(raw, "\n") {
                result.append("\n");
            } else {
                assert(result@ + Seq::<char>::empty() =~= result@);
            }
            result.append(section);
            if !text::ends_with(result.as_str(), "\n") {
                result.append("\n");
            }
            result
        },
    }
}

/// What stands outside of the sections of a key is kept as it is: it is the
/// text before and the text after the section that was put in.
pub proof fn law_other_sections_are_kept(raw: Seq<char>, key: Seq<char>, section: Seq<char>)
    ensures
        match section_range(raw, key) {
            Some(range) => {
                let head = raw.take(range.0);
                let rest = without_sections(raw.skip(range.1), key);
                &&& without_sections(raw, key) == head + rest
                &&& with_section(raw, key, section) == head + section + seam(section, rest) + rest
            },
            None => {
                &&& without_sections(raw, key) == raw
                &&& text::begins(with_section(raw, key, section), raw)
            },
        },
{
    if section_range(raw, key) is None {
        let all = with_section(raw, key, section);
        assert(all.subrange(0, raw.len() as int) =~= raw);
    }
}

/// Blanks that a text begins with.
proof fn lemma_blanks(s: Seq<char>) -> (n: int)
    ensures
        0 <= n <= s.len(),
        behind_blanks(s) == s.skip(n),
        forall|i: int| 0 <= i < n ==> #[trigger] s[i] == ' ' || s[i] == '\t',
        n < s.len() ==> s[n] != ' ' && s[n] != '\t',
    decreases s.len(),
{
    if s.len() > 0 && (s[0] == ' ' || s[0] == '\t') {
        let n = lemma_blanks(s.skip(1));
        assert(s.skip(1).skip(n) =~= s.skip(n + 1));
        assert forall|i: int| 0 <= i < n + 1 implies #[trigger] s[i] == ' ' || s[i] == '\t' by {
            if i > 0 {
                assert(s.skip(1)[i - 1] == s[i]);
            }
        }
        if n + 1 < s.len() {
            assert(s.skip(1)[n] == s[n + 1]);
        }
        n + 1
    } else {
        assert(s.skip(0) =~= s);
        0
    }
}

proof fn lemma_begins_with_key(written: Seq<char>, value: Seq<char>)
    requires
        value.len() == 0 || ends_key(value[0]),
    ensures
        begins_with_key(written + seq![':'] + value, written),
        key_colon(written + seq![':'] + value, written.len() as int),
{
    let line = written + seq![':'] + value;
    let after = line.subrange(written.len() as int, line.len() as int);
    assert(line.subrange(0, written.len() as int) =~= written);
    assert(after =~= seq![':'] + value);
    assert(text::after_prefix(line, written) == Some(after));
    assert(behind_blanks(after) == after);
    assert(key_colon(after, 0));
}

/// A line that holds a key, a colon, and nothing or a blank behind the colon
/// begins a section of that key, also where the key stands in quotes.
pub proof fn law_key_and_colon_begin_a_section(key: Seq<char>, value: Seq<char>)
    requires
        key.len() > 0,
        key[0] != ' ',
        key[0] != '\t',
        key[0] != '#',
        key[0] == '-' && key.len() > 1 ==> key[1] != ' ' && key[1] != '\t' && key[1] != '\r' && key[1]
            != '\n',
        value.len() == 0 || value[0] == ' ' || value[0] == '\t' || value[0] == '\r' || value[0]
            == '\n',
    ensures
        section_line(key + seq![':'] + value, key),
        section_line(seq!['"'] + key + seq!['"', ':'] + value, key),
        section_line(seq!['\''] + key + seq!['\'', ':'] + value, key),
        key_line(key + seq![':'] + value),
        key_line(seq!['"'] + key + seq!['"', ':'] + value),
        key_line(seq!['\''] + key + seq!['\'', ':'] + value),
{
    reveal_strlit("\"");
    reveal_strlit("'");
    let double = "\""@ + key + "\""@;
    let single = "'"@ + key + "'"@;
    lemma_begins_with_key(key, value);
    lemma_begins_with_key(double, value);
    lemma_begins_with_key(single, value);
    assert(seq!['"'] + key + seq!['"', ':'] + value =~= double + seq![':'] + value);
    assert(seq!['\''] + key + seq!['\'', ':'] + value =~= single + seq![':'] + value);
    let line = key + seq![':'] + value;
    assert(line[0] == key[0]);
    assert(line[1] == if key.len() > 1 {
        key[1]
    } else {
        ':'
    });
    assert((double + seq![':'] + value)[0] == '"');
    assert((single + seq![':'] + value)[0] == '\'');
}

/// A line that is empty, is set in from the margin, is a comment or is an item
/// of a list begins no section, and a line without a colon begins none either.
/// A line whose `?` marks a key on its own begins with a key.
pub proof fn law_lines_that_begin_no_section(line: Seq<char>, key: Seq<char>)
    ensures
        line.len() == 0 || line[0] == ' ' || line[0] == '\t' || line[0] == '#' ==> !key_line(line)
            && !section_line(line, key),
        line == seq!['-'] || (line.len() > 1 && line[0] == '-' && (line[1] == ' ' || line[1] == '\t'))
            ==> !key_line(line) && !section_line(line, key),
        !line.contains(':') ==> !section_line(line, key),
        !line.contains(':') && (line.len() == 0 || line[0] != '?') ==> !key_line(line),
        !line.contains(':') && line.len() > 1 && line[0] == '?' && line[1] != ' ' && line[1] != '\t'
            && line[1] != '\r' && line[1] != '\n' ==> !key_line(line),
        line == seq!['?'] || (line.len() > 1 && line[0] == '?' && (line[1] == ' ' || line[1] == '\t'))
            ==> key_line(line),
        section_line(line, key) ==> key_line(line),
{
    if !line.contains(':') {
        assert forall|i: int| 0 <= i < line.len() implies !#[trigger] key_colon(line, i) by {
            assert(line[i] != ':');
        }
        assert forall|written: Seq<char>| !#[trigger] begins_with_key(line, written) by {
            if begins_with_key(line, written) {
                let after = line.subrange(written.len() as int, line.len() as int);
                let n = lemma_blanks(after);
                assert(behind_blanks(after)[0] == after[n]);
                assert(after[n] == line[written.len() + n]);
                assert(line.contains(':'));
            }
        }
    }
}

/// The line of one key begins no section of another.
pub proof fn law_sections_of_keys_are_apart(key: Seq<char>, other: Seq<char>, value: Seq<char>)
    requires
        other.len() > 0,
        forall|i: int|
            0 <= i < other.len() ==> #[trigger] other[i] != ':' && other[i] != ' ' && other[i]
                != '\t' && other[i] != '"' && other[i] != '\'',
        !key.contains(':'),
    ensures
        section_line(other + seq![':'] + value, key) ==> key == other,
{
    reveal_strlit("\"");
    reveal_strlit("'");
    let line = other + seq![':'] + value;
    if section_line(line, key) {
        assert(line[0] == other[0]);
        let double = "\""@ + key + "\""@;
        let single = "'"@ + key + "'"@;
        if begins_with_key(line, double) {
            assert(line.subrange(0, double.len() as int)[0] == line[0]);
            assert(double[0] == '"');
            assert(false);
        }
        if begins_with_key(line, single) {
            assert(line.subrange(0, single.len() as int)[0] == line[0]);
            assert(single[0] == '\'');
            assert(false);
        }
        let after = line.subrange(key.len() as int, line.len() as int);
        let n = lemma_blanks(after);
        assert(behind_blanks(after)[0] == after[n]);
        let at = key.len() + n;
        assert(line[at] == ':');
        assert(line[other.len() as int] == ':');
        if at < other.len() {
            assert(line[at] == other[at]);
            assert(false);
        }
        if key.len() > other.len() {
            assert(line.subrange(0, key.len() as int)[other.len() as int] == ':');
            assert(key[other.len() as int] == ':');
            assert(false);
        }
        if n > 0 && key.len() < other.len() {
            assert(after[0] == line[key.len() as int]);
            assert(line[key.len() as int] == other[key.len() as int]);
            assert(false);
        }
        if n > 0 {
            assert(after[0] == line[key.len() as int]);
            assert(false);
        }
        assert(key =~= other);
    }
}

} // verus!
