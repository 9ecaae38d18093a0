//! What is kept of a text when the sections of a key are taken out of it.

use vstd::prelude::*;
use crate::sections;
use crate::text;

verus! {

/// A line with the mark that ends it; the last line has none.
pub open spec fn whole_line(lines: Seq<Seq<char>>, i: int) -> Seq<char> {
    if i + 1 < lines.len() {
        lines[i].push('\n')
    } else {
        lines[i]
    }
}

/// Whether a line belongs to a section of a key: the last line up to it that
/// begins with a top-level key begins such a section.
pub open spec fn in_section(lines: Seq<Seq<char>>, key: Seq<char>, i: int) -> bool
    decreases i + 1,
{
    if i < 0 {
        false
    } else if sections::key_line(lines[i]) {
        sections::section_line(lines[i], key)
    } else {
        in_section(lines, key, i - 1)
    }
}

/// The text of the first `n` lines.
pub open spec fn text_of(lines: Seq<Seq<char>>, n: int) -> Seq<char>
    decreases n,
{
    if n <= 0 {
        Seq::empty()
    } else {
        text_of(lines, n - 1) + whole_line(lines, n - 1)
    }
}

/// The text of those of the first `n` lines that belong to no section of a key.
pub open spec fn text_outside(lines: Seq<Seq<char>>, key: Seq<char>, n: int) -> Seq<char>
    decreases n,
{
    if n <= 0 {
        Seq::empty()
    } else if in_section(lines, key, n - 1) {
        text_outside(lines, key, n - 1)
    } else {
        text_outside(lines, key, n - 1) + whole_line(lines, n - 1)
    }
}

/// Lines that follow on one another, where the last of the former and the
/// first of the latter are one.
spec fn run_on(a: Seq<Seq<char>>, b: Seq<Seq<char>>) -> Seq<Seq<char>> {
    a.drop_last().push(a.last() + b[0]) + b.skip(1)
}

proof fn lemma_append(a: Seq<char>, b: Seq<char>)
    ensures
        sections::lines_of(a).len() >= 1,
        sections::lines_of(b).len() >= 1,
        sections::lines_of(a + b) == run_on(sections::lines_of(a), sections::lines_of(b)),
    decreases a.len() + b.len(),
{
    let la = sections::lines_of(a);
    let lb = sections::lines_of(b);
    if b.len() == 0 {
        if a.len() > 0 {
            lemma_append(a.drop_last(), b);
        }
        assert(a + b =~= a);
        assert(la.last() + lb[0] =~= la.last());
        assert(run_on(la, lb) =~= la);
    } else {
        let fewer = b.drop_last();
        let lf = sections::lines_of(fewer);
        lemma_append(a, fewer);
        assert((a + b).drop_last() =~= a + fewer);
        if b.last() == '\n' {
            assert(run_on(la, lb) =~= run_on(la, lf).push(Seq::empty()));
        } else {
            assert((la.last() + lf[0]).push(b.last()) =~= la.last() + lf[0].push(b.last()));
            let all = run_on(la, lf);
            assert(run_on(la, lb) =~= all.update(all.len() - 1, all.last().push(b.last())));
        }
    }
}

/// A text that is empty or ends with a line break ends with an empty line.
proof fn lemma_after_break(a: Seq<char>, b: Seq<char>)
    requires
        a.len() == 0 || a.last() == '\n',
    ensures
        sections::lines_of(a).len() >= 1,
        sections::lines_of(a + b) == sections::lines_of(a).drop_last() + sections::lines_of(b),
{
    lemma_append(a, b);
    let la = sections::lines_of(a);
    let lb = sections::lines_of(b);
    assert(la.last() =~= Seq::<char>::empty());
    assert(la.last() + lb[0] =~= lb[0]);
    assert(run_on(la, lb) =~= la.drop_last() + lb);
}

proof fn lemma_no_break_inside(raw: Seq<char>)
    ensures
        sections::lines_of(raw).len() >= 1,
        forall|i: int|
            0 <= i < sections::lines_of(raw).len() ==> !(#[trigger] sections::lines_of(
                raw,
            )[i]).contains('\n'),
    decreases raw.len(),
{
    if raw.len() > 0 {
        lemma_no_break_inside(raw.drop_last());
        let fewer = sections::lines_of(raw.drop_last());
        let lines = sections::lines_of(raw);
        assert forall|i: int| 0 <= i < lines.len() implies !(#[trigger] lines[i]).contains(
            '\n',
        ) by {
            if i < fewer.len() {
                assert(!fewer[i].contains('\n'));
                if lines[i].contains('\n') {
                    let k = choose|k: int| 0 <= k < lines[i].len() && lines[i][k] == '\n';
                    if k < fewer[i].len() {
                        assert(fewer[i][k] == '\n');
                    }
                }
            }
        }
    }
}

/// A line without a break inside is all the lines of its text.
proof fn lemma_one_line(line: Seq<char>)
    requires
        !line.contains('\n'),
    ensures
        sections::lines_of(line) == seq![line],
        sections::lines_of(line.push('\n')) == seq![line, Seq::empty()],
    decreases line.len(),
{
    if line.len() > 0 {
        let fewer = line.drop_last();
        if fewer.contains('\n') {
            let k = choose|k: int| 0 <= k < fewer.len() && fewer[k] == '\n';
            assert(line[k] == '\n');
        }
        lemma_one_line(fewer);
        assert(line.last() == line[line.len() - 1]);
        assert(fewer.push(line.last()) =~= line);
        assert(sections::lines_of(line) =~= seq![line]);
    } else {
        assert(line =~= Seq::empty());
        assert(sections::lines_of(line) =~= seq![line]);
    }
    assert(line.push('\n').drop_last() =~= line);
    assert(sections::lines_of(line.push('\n')) =~= seq![line, Seq::empty()]);
}

/// The lines of a text make the text, and the text of the first of them has
/// the length that stands before the next.
proof fn lemma_text(raw: Seq<char>, n: int)
    requires
        0 <= n < sections::lines_of(raw).len(),
    ensures
        ({
            let lines = sections::lines_of(raw);
            let head = text_of(lines, n);
            &&& head.len() == 0 || head.last() == '\n'
            &&& sections::lines_of(head) == lines.take(n).push(Seq::empty())
            &&& head.len() == sections::offset_of(lines, n)
        }),
    decreases n,
{
    let lines = sections::lines_of(raw);
    if n > 0 {
        lemma_text(raw, n - 1);
        lemma_no_break_inside(raw);
        lemma_one_line(lines[n - 1]);
        let head = text_of(lines, n - 1);
        lemma_after_break(head, lines[n - 1].push('\n'));
        assert(sections::lines_of(text_of(lines, n)) =~= lines.take(n).push(Seq::empty()));
    } else {
        assert(text_of(lines, n) =~= Seq::empty());
        assert(sections::lines_of(text_of(lines, n)) =~= lines.take(n).push(Seq::empty()));
    }
}

/// Two texts with the same lines are one.
proof fn lemma_same_lines(a: Seq<char>, b: Seq<char>)
    requires
        sections::lines_of(a) == sections::lines_of(b),
    ensures
        a == b,
    decreases a.len(),
{
    lemma_append(a, Seq::empty());
    lemma_append(b, Seq::empty());
    let lines = sections::lines_of(a);
    if a.len() > 0 {
        lemma_append(a.drop_last(), Seq::empty());
    }
    if b.len() > 0 {
        lemma_append(b.drop_last(), Seq::empty());
    }
    if a.len() == 0 {
        if b.len() > 0 {
            let lb = sections::lines_of(b.drop_last());
            if b.last() != '\n' {
                assert(sections::lines_of(b).last() == lb.last().push(b.last()));
            }
            assert(false);
        }
    } else if b.len() == 0 {
        let la = sections::lines_of(a.drop_last());
        if a.last() != '\n' {
            assert(sections::lines_of(a).last() == la.last().push(a.last()));
        }
        assert(false);
    } else {
        let la = sections::lines_of(a.drop_last());
        let lb = sections::lines_of(b.drop_last());
        if a.last() != '\n' {
            assert(lines.last() == la.last().push(a.last()));
        }
        if b.last() != '\n' {
            assert(lines.last() == lb.last().push(b.last()));
        }
        assert(a.last() == b.last()) by {
            if a.last() == '\n' || b.last() == '\n' {
                if a.last() != b.last() {
                    assert(lines.last().len() == 0);
                    assert(lines.last().len() > 0);
                }
            } else {
                assert(lines.last().last() == a.last());
                assert(lines.last().last() == b.last());
            }
        }
        if a.last() == '\n' {
            assert(la =~= lines.drop_last());
            assert(lb =~= lines.drop_last());
        } else {
            assert(la.last() =~= lines.last().drop_last());
            assert(lb.last() =~= lines.last().drop_last());
            assert forall|i: int| 0 <= i < la.len() implies la[i] == lb[i] by {
                if i < la.len() - 1 {
                    assert(la[i] == lines[i]);
                    assert(lb[i] == lines[i]);
                }
            }
            assert(la =~= lb);
        }
        lemma_same_lines(a.drop_last(), b.drop_last());
        assert(a =~= a.drop_last().push(a.last()));
        assert(b =~= b.drop_last().push(b.last()));
    }
}

/// The lines of a text make the text.
pub proof fn law_lines_make_the_text(raw: Seq<char>)
    ensures
        text_of(sections::lines_of(raw), sections::lines_of(raw).len() as int) == raw,
{
    let lines = sections::lines_of(raw);
    lemma_no_break_inside(raw);
    let n = lines.len() - 1;
    lemma_text(raw, n);
    lemma_one_line(lines[n]);
    lemma_after_break(text_of(lines, n), lines[n]);
    assert(sections::lines_of(text_of(lines, lines.len() as int)) =~= lines);
    lemma_same_lines(text_of(lines, lines.len() as int), raw);
}

/// Where no line begins a section of the key, all are outside of one.
proof fn lemma_all_outside(lines: Seq<Seq<char>>, key: Seq<char>, n: int)
    requires
        0 <= n <= lines.len(),
        forall|i: int| 0 <= i < n ==> !sections::section_line(#[trigger] lines[i], key),
    ensures
        text_outside(lines, key, n) == text_of(lines, n),
        n > 0 ==> !in_section(lines, key, n - 1),
    decreases n,
{
    if n > 0 {
        lemma_all_outside(lines, key, n - 1);
        assert(!sections::section_line(lines[n - 1], key));
        assert(!in_section(lines, key, -1));
    }
}

/// The lines from one that begins a section of the key up to the next key line
/// are all of that section.
proof fn lemma_all_inside(lines: Seq<Seq<char>>, key: Seq<char>, s: int, n: int)
    requires
        0 <= s < n <= lines.len(),
        sections::section_line(lines[s], key),
        forall|i: int| s < i < n ==> !sections::key_line(#[trigger] lines[i]),
    ensures
        text_outside(lines, key, n) == text_outside(lines, key, s),
        in_section(lines, key, n - 1),
    decreases n,
{
    if n > s + 1 {
        lemma_all_inside(lines, key, s, n - 1);
        assert(!sections::key_line(lines[n - 1]));
    }
}

/// From a key line on, what belongs to a section does not rest on the lines
/// before it.
proof fn lemma_from_key(lines: Seq<Seq<char>>, key: Seq<char>, e: int, m: int)
    requires
        0 <= e < lines.len(),
        0 <= m <= lines.len() - e,
        sections::key_line(lines[e]),
    ensures
        text_outside(lines, key, e + m) == text_outside(lines, key, e) + text_outside(
            lines.skip(e),
            key,
            m,
        ),
        m > 0 ==> in_section(lines, key, e + m - 1) == in_section(lines.skip(e), key, m - 1),
    decreases m,
{
    let rest = lines.skip(e);
    if m > 0 {
        lemma_from_key(lines, key, e, m - 1);
        assert(rest[m - 1] == lines[e + m - 1]);
        assert(whole_line(rest, m - 1) == whole_line(lines, e + m - 1));
        if !in_section(rest, key, m - 1) {
            assert(text_outside(lines, key, e + m - 1) + whole_line(lines, e + m - 1)
                =~= text_outside(lines, key, e) + (text_outside(rest, key, m - 1) + whole_line(
                rest,
                m - 1,
            )));
        }
    } else {
        assert(text_outside(lines, key, e) + text_outside(rest, key, 0) =~= text_outside(
            lines,
            key,
            e,
        ));
    }
}

proof fn lemma_none_before(lines: Seq<Seq<char>>, key: Seq<char>, from: int)
    requires
        0 <= from,
    ensures
        match sections::section_start(lines, key, from) {
            Some(s) => from <= s < lines.len() && sections::section_line(lines[s], key)
                && forall|i: int| from <= i < s ==> !sections::section_line(#[trigger] lines[i], key),
            None => forall|i: int|
                from <= i < lines.len() ==> !sections::section_line(#[trigger] lines[i], key),
        },
        match sections::next_key(lines, from) {
            Some(e) => from <= e < lines.len() && sections::key_line(lines[e]) && forall|i: int|
                from <= i < e ==> !sections::key_line(#[trigger] lines[i]),
            None => forall|i: int|
                from <= i < lines.len() ==> !sections::key_line(#[trigger] lines[i]),
        },
    decreases lines.len() - from,
{
    if from < lines.len() {
        lemma_none_before(lines, key, from + 1);
    }
}

/// Where no line begins a section of the key, none is found.
proof fn lemma_none_found(lines: Seq<Seq<char>>, key: Seq<char>, from: int)
    requires
        0 <= from,
        forall|i: int| from <= i < lines.len() ==> !sections::section_line(#[trigger] lines[i], key),
    ensures
        sections::section_start(lines, key, from) is None,
    decreases lines.len() - from,
{
    if from < lines.len() {
        assert(!sections::section_line(lines[from], key));
        lemma_none_found(lines, key, from + 1);
    }
}

/// Taking out the sections of a key deletes the lines of these sections, whole,
/// and no others: what is left are the other lines, in their order, character
/// by character. Every section of another key is among them.
pub proof fn law_removal_deletes_whole_sections(raw: Seq<char>, key: Seq<char>)
    ensures
        sections::without_sections(raw, key) == text_outside(
            sections::lines_of(raw),
            key,
            sections::lines_of(raw).len() as int,
        ),
    decreases raw.len(),
{
    let lines = sections::lines_of(raw);
    let all = lines.len() as int;
    law_lines_make_the_text(raw);
    lemma_none_before(lines, key, 0);
    match sections::section_start(lines, key, 0) {
        None => {
            lemma_all_outside(lines, key, all);
        },
        Some(s) => {
            sections::lemma_range(raw, key);
            lemma_text(raw, s);
            lemma_prefix(lines, s, all);
            let range = sections::section_range(raw, key)->0;
            assert(raw.take(range.0) =~= text_of(lines, s));
            lemma_all_outside(lines, key, s);
            lemma_none_before(lines, key, s + 1);
            let rest = raw.skip(range.1);
            law_removal_deletes_whole_sections(rest, key);
            match sections::next_key(lines, s + 1) {
                None => {
                    lemma_all_inside(lines, key, s, all);
                    assert(rest =~= Seq::empty());
                    let empty = sections::lines_of(rest);
                    assert(empty =~= seq![Seq::<char>::empty()]);
                    assert(whole_line(empty, 0) =~= Seq::empty());
                    assert(text_outside(empty, key, 0) =~= Seq::empty());
                    assert(text_outside(empty, key, 1) =~= Seq::empty());
                    assert(raw.take(range.0) + sections::without_sections(rest, key)
                        =~= text_outside(lines, key, s));
                },
                Some(e) => {
                    lemma_all_inside(lines, key, s, e);
                    lemma_text(raw, e);
                    lemma_prefix(lines, e, all);
                    let head = raw.take(range.1);
                    assert(head =~= text_of(lines, e));
                    assert(raw =~= head + rest);
                    lemma_after_break(head, rest);
                    assert(sections::lines_of(head).drop_last() =~= lines.take(e));
                    assert(sections::lines_of(rest) =~= lines.skip(e)) by {
                        let found = lines.take(e) + sections::lines_of(rest);
                        assert(lines == found);
                        assert(found.skip(e) =~= sections::lines_of(rest));
                    }
                    lemma_from_key(lines, key, e, all - e);
                },
            }
        },
    }
}

/// The text of fewer lines stands at the front of that of more.
proof fn lemma_prefix(lines: Seq<Seq<char>>, n: int, m: int)
    requires
        0 <= n <= m <= lines.len(),
    ensures
        text_of(lines, n).len() <= text_of(lines, m).len(),
        text_of(lines, m).take(text_of(lines, n).len() as int) == text_of(lines, n),
    decreases m,
{
    if n < m {
        lemma_prefix(lines, n, m - 1);
        let shorter = text_of(lines, n);
        assert(text_of(lines, m).take(shorter.len() as int) =~= text_of(lines, m - 1).take(
            shorter.len() as int,
        ));
    } else {
        assert(text_of(lines, m).take(text_of(lines, n).len() as int) =~= text_of(lines, n));
    }
}

/// What is outside of the sections of a key holds no line that begins one.
proof fn lemma_outside_begins_none(raw: Seq<char>, key: Seq<char>, n: int)
    requires
        0 <= n <= sections::lines_of(raw).len(),
    ensures
        ({
            let outside = text_outside(sections::lines_of(raw), key, n);
            let left = sections::lines_of(outside);
            &&& n < sections::lines_of(raw).len() ==> outside.len() == 0 || outside.last() == '\n'
            &&& forall|i: int|
                0 <= i < left.len() ==> !sections::section_line(#[trigger] left[i], key)
        }),
    decreases n,
{
    let lines = sections::lines_of(raw);
    let outside = text_outside(lines, key, n);
    let left = sections::lines_of(outside);
    if n == 0 {
        assert(left =~= seq![Seq::<char>::empty()]);
    } else {
        lemma_outside_begins_none(raw, key, n - 1);
        if !in_section(lines, key, n - 1) {
            let before = text_outside(lines, key, n - 1);
            let fewer = sections::lines_of(before);
            lemma_no_break_inside(raw);
            lemma_one_line(lines[n - 1]);
            lemma_after_break(before, whole_line(lines, n - 1));
            let tail = sections::lines_of(whole_line(lines, n - 1));
            assert forall|i: int| 0 <= i < left.len() implies !sections::section_line(
                #[trigger] left[i],
                key,
            ) by {
                if i < fewer.len() - 1 {
                    assert(left[i] == fewer[i]);
                } else {
                    assert(left[i] == tail[i - (fewer.len() - 1)]);
                }
            }
        }
    }
}

/// After the sections of a key are taken out, none is left, and taking them
/// out once more changes nothing. A text without such a section stays as it is.
pub proof fn law_removed_key_has_no_section(raw: Seq<char>, key: Seq<char>)
    ensures
        sections::section_range(sections::without_sections(raw, key), key) is None,
        sections::without_sections(sections::without_sections(raw, key), key)
            == sections::without_sections(raw, key),
        sections::section_range(raw, key) is None ==> sections::without_sections(raw, key) == raw,
{
    law_removal_deletes_whole_sections(raw, key);
    lemma_outside_begins_none(raw, key, sections::lines_of(raw).len() as int);
    lemma_none_found(sections::lines_of(sections::without_sections(raw, key)), key, 0);
}

/// A text with another put in between its front and its rest.
pub open spec fn put_between(front: Seq<char>, put: Seq<char>, rest: Seq<char>) -> Seq<char> {
    front + put + rest
}

/// Whether a changed text has all lines of the text before that belong to no
/// section of a key, in their order, with one text put in before, among or
/// after them.
pub open spec fn others_kept(raw: Seq<char>, key: Seq<char>, changed: Seq<char>) -> bool {
    exists|front: Seq<char>, put: Seq<char>, rest: Seq<char>|
        front + rest == text_outside(
            sections::lines_of(raw),
            key,
            sections::lines_of(raw).len() as int,
        ) && changed == #[trigger] put_between(front, put, rest)
}

/// A section that takes the place of those of its key leaves all lines of
/// other sections as they are, character by character.
pub proof fn law_replacement_keeps_the_others(raw: Seq<char>, key: Seq<char>, section: Seq<char>)
    ensures
        others_kept(raw, key, sections::with_section(raw, key, section)),
{
    law_removal_deletes_whole_sections(raw, key);
    let changed = sections::with_section(raw, key, section);
    match sections::section_range(raw, key) {
        Some(range) => {
            let front = raw.take(range.0);
            let rest = sections::without_sections(raw.skip(range.1), key);
            let put = section + sections::seam(section, rest);
            assert(changed =~= put_between(front, put, rest));
        },
        None => {
            let rest = Seq::<char>::empty();
            let put = changed.skip(raw.len() as int);
            assert(raw + rest =~= raw);
            assert(changed.take(raw.len() as int) =~= raw);
            assert(changed =~= put_between(raw, put, rest));
        },
    }
}

/// A text that ends with a line break, unless it is empty.
pub open spec fn ended(t: Seq<char>) -> Seq<char> {
    if t.len() == 0 || t.last() == '\n' {
        t
    } else {
        t.push('\n')
    }
}

proof fn lemma_line_break(t: Seq<char>)
    ensures
        "\n"@ == seq!['\n'],
        text::finishes(t, "\n"@) == (t.len() > 0 && t.last() == '\n'),
        text::begins(t, "\n"@) == (t.len() > 0 && t[0] == '\n'),
{
    reveal_strlit("\n");
    assert("\n"@ =~= seq!['\n']);
    if t.len() > 0 {
        assert(t.subrange(t.len() - 1, t.len() as int) =~= seq![t.last()]);
        assert(t.subrange(0, 1) =~= seq![t[0]]);
        assert(seq![t.last()][0] == t.last());
        assert(seq![t[0]][0] == t[0]);
        assert(seq!['\n'][0] == '\n');
    }
}

/// A section of a key that the text has none of comes last, on lines of its
/// own.
pub proof fn law_new_section_comes_last(raw: Seq<char>, key: Seq<char>, section: Seq<char>)
    requires
        forall|i: int|
            0 <= i < sections::lines_of(raw).len() ==> !sections::section_line(
                #[trigger] sections::lines_of(raw)[i],
                key,
            ),
        raw.len() > 0 || section.len() > 0,
    ensures
        sections::with_section(raw, key, section) == ended(ended(raw) + section),
{
    lemma_none_found(sections::lines_of(raw), key, 0);
    lemma_line_break(raw);
    let all = raw + sections::closing(raw) + section;
    lemma_line_break(all);
    assert(raw + sections::closing(raw) =~= ended(raw));
    assert(sections::with_section(raw, key, section) =~= ended(ended(raw) + section));
}

/// A text that does not run into the text that follows on it.
pub open spec fn set_off(t: Seq<char>, rest: Seq<char>) -> Seq<char> {
    if rest.len() == 0 || rest[0] == '\n' {
        t
    } else {
        ended(t)
    }
}

/// Whether a changed text holds a section of a key behind some text, then the
/// lines of all other sections that followed, each on a line of its own.
pub open spec fn stands_behind(
    raw: Seq<char>,
    key: Seq<char>,
    front: Seq<char>,
    section: Seq<char>,
    changed: Seq<char>,
) -> bool {
    exists|rest: Seq<char>|
        front + rest == text_outside(
            sections::lines_of(raw),
            key,
            sections::lines_of(raw).len() as int,
        ) && changed == #[trigger] put_between(
            front,
            set_off(section, rest),
            rest,
        )
}

/// A section takes the place of the first of its key: what stood before that
/// one stands before it, then it follows, and the lines of the other sections
/// follow on it.
pub proof fn law_section_takes_the_place_of_the_first(
    raw: Seq<char>,
    key: Seq<char>,
    section: Seq<char>,
    first: int,
)
    requires
        0 <= first < sections::lines_of(raw).len(),
        sections::section_line(sections::lines_of(raw)[first], key),
        forall|i: int|
            0 <= i < first ==> !sections::section_line(
                #[trigger] sections::lines_of(raw)[i],
                key,
            ),
        section.len() > 0,
    ensures
        stands_behind(
            raw,
            key,
            text_of(sections::lines_of(raw), first),
            section,
            sections::with_section(raw, key, section),
        ),
{
    let lines = sections::lines_of(raw);
    lemma_none_before(lines, key, 0);
    let s = sections::section_start(lines, key, 0)->0;
    assert(s == first) by {
        assert(sections::section_line(lines[first], key));
    }
    law_lines_make_the_text(raw);
    sections::lemma_range(raw, key);
    lemma_text(raw, s);
    lemma_prefix(lines, s, lines.len() as int);
    let range = sections::section_range(raw, key)->0;
    assert(raw.take(range.0) =~= text_of(lines, s));
    let rest = sections::without_sections(raw.skip(range.1), key);
    law_removal_deletes_whole_sections(raw, key);
    lemma_line_break(section);
    lemma_line_break(rest);
    let changed = sections::with_section(raw, key, section);
    let put = set_off(section, rest);
    assert(section + sections::seam(section, rest) =~= put);
    assert(changed =~= put_between(text_of(lines, s), put, rest));
}

} // verus!
