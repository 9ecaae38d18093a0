//! Paths as texts, with `/` between their parts.

use vstd::prelude::*;
use crate::text;

verus! {

/// The texts of strings.
pub open spec fn texts(items: Seq<String>) -> Seq<Seq<char>> {
    items.map_values(|item: String| item@)
}

/// A file or directory that a directory holds.
#[derive(Debug)]
pub struct DirEntry {
    pub name: String,
    pub is_file: bool,
}

/// What stands between the occurrences of `mark`.
pub open spec fn pieces(s: Seq<char>, mark: char) -> Seq<Seq<char>>
    decreases s.len(),
{
    if s.len() == 0 {
        seq![Seq::empty()]
    } else {
        let rest = pieces(s.drop_last(), mark);
        if s.last() == mark {
            rest.push(Seq::empty())
        } else {
            rest.update(rest.len() - 1, rest.last().push(s.last()))
        }
    }
}

/// What stands between the occurrences of `mark`.
pub fn split_at_mark(s: &str, mark: char) -> (r: Vec<String>)
    ensures
        texts(r@) == pieces(s@, mark),
        r@.len() >= 1,
{
    let chars = text::chars_of(s);
    let mut out: Vec<String> = Vec::new();
    let mut current = String::new();
    let mut i: usize = 0;
    assert(texts(out@).push(current@) =~= pieces(chars@.take(0), mark));
    while i < chars.len()
        invariant
            i <= chars@.len(),
            texts(out@).push(current@) == pieces(chars@.take(i as int), mark),
        decreases chars@.len() - i,
    {
        let ghost before = texts(out@);
        let ghost held = current@;
        assert(chars@.take(i + 1).drop_last() =~= chars@.take(i as int));
        if chars[i] == mark {
            out.push(current);
            current = String::new();
            assert(texts(out@) =~= before.push(held));
            assert(texts(out@).push(current@) =~= pieces(chars@.take(i + 1), mark));
        } else {
            current.push(chars[i]);
            assert(texts(out@).push(current@) =~= pieces(chars@.take(i + 1), mark));
        }
        i += 1;
    }
    let ghost before = texts(out@);
    let ghost held = current@;
    out.push(current);
    assert(texts(out@) =~= before.push(held));
    assert(chars@.take(chars@.len() as int) =~= chars@);
    out
}

/// A piece that names something: neither empty nor `.`.
pub open spec fn names(piece: Seq<char>) -> bool {
    piece.len() > 0 && piece != "."@
}

/// The pieces that name something.
pub open spec fn naming(items: Seq<Seq<char>>) -> Seq<Seq<char>>
    decreases items.len(),
{
    if items.len() == 0 {
        Seq::empty()
    } else {
        let rest = naming(items.drop_last());
        if names(items.last()) {
            rest.push(items.last())
        } else {
            rest
        }
    }
}

/// The parts of a path.
pub open spec fn parts(path: Seq<char>) -> Seq<Seq<char>> {
    naming(pieces(path, '/'))
}

/// The parts of a path.
pub fn path_parts(path: &str) -> (r: Vec<String>)
    ensures
        texts(r@) == parts(path@),
{
    let items = split_at_mark(path, '/');
    let ghost all = texts(items@);
    let mut out: Vec<String> = Vec::new();
    let mut i: usize = 0;
    assert(texts(out@) =~= naming(all.take(0)));
    while i < items.len()
        invariant
            i <= items@.len(),
            all == texts(items@),
            texts(out@) == naming(all.take(i as int)),
        decreases items@.len() - i,
    {
        let ghost before = texts(out@);
        let item = items[i].as_str();
        assert(all.take(i + 1).drop_last() =~= all.take(i as int));
        assert(all[i as int] == item@);
        if !item.is_empty() && !text::same_text(item, ".") {
            out.push(item.to_owned());
            assert(texts(out@) =~= before.push(item@));
        }
        i += 1;
    }
    assert(all.take(all.len() as int) =~= all);
    out
}

/// A part, unless it leads upwards.
pub open spec fn proper(part: Seq<char>) -> Option<Seq<char>> {
    if part == ".."@ {
        None
    } else {
        Some(part)
    }
}

/// The name of what a path leads to.
pub open spec fn name_of(path: Seq<char>) -> Option<Seq<char>> {
    if parts(path).len() == 0 {
        None
    } else {
        proper(parts(path).last())
    }
}

/// The name of the directory that holds what a path leads to.
pub open spec fn parent_name_of(path: Seq<char>) -> Option<Seq<char>> {
    if parts(path).len() < 2 {
        None
    } else {
        proper(parts(path)[parts(path).len() - 2])
    }
}

fn proper_part(part: &str) -> (r: Option<String>)
    ensures
        text::opt_text(r) == proper(part@),
{
    if text::same_text(part, "..") {
        None
    } else {
        Some(part.to_owned())
    }
}

/// The name of what a path leads to.
pub fn file_name(path: &str) -> (r: Option<String>)
    ensures
        text::opt_text(r) == name_of(path@),
{
    let items = path_parts(path);
    if items.len() == 0 {
        assert(texts(items@).len() == 0);
        return None;
    }
    assert(texts(items@).last() == items@[items@.len() - 1]@);
    proper_part(items[items.len() - 1].as_str())
}

/// The name of the directory that holds what a path leads to.
pub fn parent_name(path: &str) -> (r: Option<String>)
    ensures
        text::opt_text(r) == parent_name_of(path@),
{
    let items = path_parts(path);
    assert(texts(items@).len() == items@.len());
    if items.len() < 2 {
        return None;
    }
    assert(texts(items@)[items@.len() - 2] == items@[items@.len() - 2]@);
    proper_part(items[items.len() - 2].as_str())
}

/// What follows the last point of the name of what a path leads to, where
/// something precedes it.
pub open spec fn extension_of(path: Seq<char>) -> Option<Seq<char>> {
    match name_of(path) {
        Some(name) => match text::parted_last(name, "."@) {
            Some(parts) => if parts.0.len() > 0 {
                Some(parts.1)
            } else {
                None
            },
            None => None,
        },
        None => None,
    }
}

/// What follows the last point of the name of what a path leads to.
pub fn extension(path: &str) -> (r: Option<String>)
    ensures
        text::opt_text(r) == extension_of(path@),
{
    let name = match file_name(path) {
        Some(name) => name,
        None => return None,
    };
    match text::rsplit_once(name.as_str(), ".") {
        Some(parts) => if parts.0.as_str().is_empty() {
            None
        } else {
            Some(parts.1)
        },
        None => None,
    }
}

/// `name` inside of `dir`; an absolute `name` stands for itself.
pub open spec fn inside(dir: Seq<char>, name: Seq<char>) -> Seq<char> {
    if text::begins(name, "/"@) {
        name
    } else if dir.len() == 0 || text::finishes(dir, "/"@) {
        dir + name
    } else {
        dir + "/"@ + name
    }
}

/// `name` inside of `dir`; an absolute `name` stands for itself.
pub fn join_path(dir: &str, name: &str) -> (r: String)
    ensures
        r@ == inside(dir@, name@),
{
    if text::starts_with(name, "/") {
        name.to_owned()
    } else if dir.is_empty() || text::ends_with(dir, "/") {
        text::joined(dir, name)
    } else {
        text::joined3(dir, "/", name)
    }
}

proof fn lemma_pieces_append(a: Seq<char>, b: Seq<char>, mark: char)
    requires
        forall|i: int| 0 <= i < b.len() ==> #[trigger] b[i] != mark,
    ensures
        pieces(a, mark).len() >= 1,
        pieces(a + b, mark) == pieces(a, mark).update(
            pieces(a, mark).len() - 1,
            pieces(a, mark).last() + b,
        ),
    decreases a.len() + b.len(),
{
    if b.len() == 0 {
        if a.len() > 0 {
            lemma_pieces_append(a.drop_last(), b, mark);
        }
        assert(a + b =~= a);
        assert(pieces(a, mark).last() + b =~= pieces(a, mark).last());
        assert(pieces(a, mark) =~= pieces(a, mark).update(
            pieces(a, mark).len() - 1,
            pieces(a, mark).last() + b,
        ));
    } else {
        let fewer = b.drop_last();
        lemma_pieces_append(a, fewer, mark);
        assert((a + b).drop_last() =~= a + fewer);
        assert(b.last() == b[b.len() - 1]);
        assert((pieces(a, mark).last() + fewer).push(b.last()) =~= pieces(a, mark).last() + b);
        assert(pieces(a + b, mark) =~= pieces(a, mark).update(
            pieces(a, mark).len() - 1,
            pieces(a, mark).last() + b,
        ));
    }
}

/// A name without `/` is the last part of its path inside of a directory, and
/// the parts before it are those of the directory.
pub proof fn law_name_stays_inside(dir: Seq<char>, name: Seq<char>)
    requires
        names(name),
        forall|i: int| 0 <= i < name.len() ==> #[trigger] name[i] != '/',
    ensures
        parts(inside(dir, name)) == parts(dir).push(name),
{
    reveal_strlit("/");
    let mark = "/"@;
    assert(mark =~= seq!['/']);
    assert(!text::begins(name, mark)) by {
        if text::begins(name, mark) {
            assert(name.subrange(0, 1)[0] == mark[0]);
            assert(name[0] == '/');
        }
    }
    if dir.len() == 0 {
        lemma_pieces_append(dir, name, '/');
        assert(dir + name =~= name);
        assert(Seq::<char>::empty() + name =~= name);
        assert(pieces(name, '/') =~= seq![name]);
        assert(seq![name].drop_last() =~= Seq::<Seq<char>>::empty());
        assert(pieces(dir, '/').drop_last() =~= Seq::<Seq<char>>::empty());
        assert(naming(Seq::<Seq<char>>::empty()) =~= Seq::<Seq<char>>::empty());
        assert(parts(dir) =~= Seq::<Seq<char>>::empty());
        assert(parts(dir).push(name) =~= naming(seq![name]));
    } else if text::finishes(dir, mark) {
        assert(dir.subrange(dir.len() - 1, dir.len() as int)[0] == mark[0]);
        assert(dir.last() == '/');
        let rest = pieces(dir.drop_last(), '/');
        lemma_pieces_append(dir, name, '/');
        assert(Seq::<char>::empty() + name =~= name);
        assert(pieces(dir + name, '/') =~= rest.push(name));
        assert(rest.push(name).drop_last() =~= rest);
        assert(pieces(dir, '/').drop_last() =~= rest);
    } else {
        let slashed = dir + mark;
        assert(slashed.drop_last() =~= dir);
        assert(slashed.last() == '/');
        let rest = pieces(dir, '/');
        assert(pieces(slashed, '/') == rest.push(Seq::empty()));
        lemma_pieces_append(slashed, name, '/');
        assert(Seq::<char>::empty() + name =~= name);
        assert(pieces(slashed + name, '/') =~= rest.push(name));
        assert(rest.push(name).drop_last() =~= rest);
    }
}

/// Two paths that lead to one place part by part.
pub open spec fn same_place(a: Seq<char>, b: Seq<char>) -> bool {
    &&& text::begins(a, "/"@) == text::begins(b, "/"@)
    &&& (pieces(a, '/')[0] == "."@) == (pieces(b, '/')[0] == "."@)
    &&& parts(a) == parts(b)
}

/// Whether two lists hold the same texts.
pub fn same_texts(a: &Vec<String>, b: &Vec<String>) -> (r: bool)
    ensures
        r == (texts(a@) == texts(b@)),
{
    let ghost x = texts(a@);
    let ghost y = texts(b@);
    if a.len() != b.len() {
        assert(x.len() != y.len());
        return false;
    }
    let mut i: usize = 0;
    while i < a.len()
        invariant
            i <= a@.len(),
            a@.len() == b@.len(),
            x == texts(a@),
            y == texts(b@),
            forall|k: int| 0 <= k < i ==> x[k] == y[k],
        decreases a@.len() - i,
    {
        if !text::same_text(a[i].as_str(), b[i].as_str()) {
            assert(x[i as int] != y[i as int]);
            return false;
        }
        i += 1;
    }
    assert(x =~= y);
    true
}

/// Whether two paths lead to one place part by part.
pub fn is_same_place(a: &str, b: &str) -> (r: bool)
    ensures
        r == same_place(a@, b@),
{
    let x = split_at_mark(a, '/');
    let y = split_at_mark(b, '/');
    assert(texts(x@)[0] == x@[0]@);
    assert(texts(y@)[0] == y@[0]@);
    text::starts_with(a, "/") == text::starts_with(b, "/") && text::same_text(x[0].as_str(), ".")
        == text::same_text(y[0].as_str(), ".") && same_texts(&path_parts(a), &path_parts(b))
}

/// Whether a list holds a text.
pub fn holds_text(items: &Vec<String>, wanted: &str) -> (r: bool)
    ensures
        r == texts(items@).contains(wanted@),
{
    let ghost all = texts(items@);
    let mut i: usize = 0;
    while i < items.len()
        invariant
            i <= items@.len(),
            all == texts(items@),
            forall|k: int| 0 <= k < i ==> all[k] != wanted@,
        decreases items@.len() - i,
    {
        if text::same_text(items[i].as_str(), wanted) {
            assert(all[i as int] == wanted@);
            return true;
        }
        i += 1;
    }
    false
}

/// A text put into its place among texts in order.
pub open spec fn placed(ordered: Seq<Seq<char>>, item: Seq<char>) -> Seq<Seq<char>>
    decreases ordered.len(),
{
    if ordered.len() > 0 && text::text_before(item, ordered.last()) {
        placed(ordered.drop_last(), item).push(ordered.last())
    } else {
        ordered.push(item)
    }
}

/// Texts in the order of their code points.
pub open spec fn in_order(items: Seq<Seq<char>>) -> Seq<Seq<char>>
    decreases items.len(),
{
    if items.len() == 0 {
        Seq::empty()
    } else {
        placed(in_order(items.drop_last()), items.last())
    }
}

/// None of the texts is before an earlier one.
pub open spec fn ordered(items: Seq<Seq<char>>) -> bool {
    forall|i: int, j: int|
        0 <= i < j < items.len() ==> !text::text_before(#[trigger] items[j], #[trigger] items[i])
}

proof fn lemma_placed(items: Seq<Seq<char>>, item: Seq<char>)
    requires
        ordered(items),
    ensures
        ordered(placed(items, item)),
        placed(items, item).to_multiset() == items.to_multiset().insert(item),
        placed(items, item).len() == items.len() + 1,
    decreases items.len(),
{
    broadcast use vstd::seq_lib::group_to_multiset_ensures;

    let all = placed(items, item);
    if items.len() > 0 && text::text_before(item, items.last()) {
        let fewer = items.drop_last();
        lemma_placed(fewer, item);
        let most = placed(fewer, item);
        assert(items =~= fewer.push(items.last()));
        assert forall|i: int| 0 <= i < most.len() implies !text::text_before(
            items.last(),
            #[trigger] most[i],
        ) by {
            assert(most.to_multiset().contains(most[i]));
            if most[i] == item {
                text::law_text_order_total(item, items.last());
            } else {
                assert(fewer.to_multiset().contains(most[i]));
                let k = fewer.index_of(most[i]);
                assert(fewer.contains(most[i]));
                assert(items[k] == most[i]);
            }
        }
    } else {
        assert forall|i: int| 0 <= i < items.len() implies !text::text_before(
            item,
            #[trigger] items[i],
        ) by {
            if i < items.len() - 1 && text::text_before(item, items[i]) {
                let last = items.last();
                assert(!text::text_before(last, items[i]));
                text::law_text_order_total(last, items[i]);
                if last == items[i] {
                } else {
                    text::law_text_order_transitive(item, items[i], last);
                }
            }
        }
    }
}

/// Putting texts into order loses none and adds none, and none is before an
/// earlier one.
pub proof fn law_in_order(items: Seq<Seq<char>>)
    ensures
        ordered(in_order(items)),
        in_order(items).to_multiset() == items.to_multiset(),
        in_order(items).len() == items.len(),
    decreases items.len(),
{
    broadcast use vstd::seq_lib::group_to_multiset_ensures;

    if items.len() == 0 {
        assert(in_order(items) =~= items);
    } else {
        law_in_order(items.drop_last());
        lemma_placed(in_order(items.drop_last()), items.last());
        assert(items =~= items.drop_last().push(items.last()));
    }
}

/// Puts a text into its place among texts in order.
fn place_text(items: &mut Vec<String>, item: String)
    ensures
        texts(final(items)@) == placed(texts(old(items)@), item@),
{
    let ghost all = texts(items@);
    let mut i: usize = items.len();
    assert(all.take(i as int) =~= all);
    assert(placed(all, item@) =~= placed(all, item@) + all.skip(i as int));
    while i > 0 && text::is_before(item.as_str(), items[i - 1].as_str())
        invariant
            i <= items@.len(),
            all == texts(items@),
            placed(all, item@) == placed(all.take(i as int), item@) + all.skip(i as int),
        decreases i,
    {
        proof {
            let part = all.take(i as int);
            assert(part.drop_last() =~= all.take(i - 1));
            assert(part.last() == all[i - 1]);
            assert(placed(part, item@) =~= placed(all.take(i - 1), item@).push(all[i - 1]));
            assert(placed(part, item@) + all.skip(i as int) =~= placed(all.take(i - 1), item@)
                + all.skip(i - 1));
        }
        i -= 1;
    }
    proof {
        let part = all.take(i as int);
        if i > 0 {
            assert(part.last() == all[i - 1]);
        }
        assert(placed(part, item@) =~= part.push(item@));
    }
    let ghost value = item@;
    items.insert(i, item);
    assert(texts(items@) =~= all.take(i as int).push(value) + all.skip(i as int));
}

/// Texts in the order of their code points.
pub fn sort_texts(items: Vec<String>) -> (r: Vec<String>)
    ensures
        texts(r@) == in_order(texts(items@)),
{
    let ghost given = items@;
    let ghost all = texts(items@);
    let mut out: Vec<String> = Vec::new();
    assert(texts(out@) =~= in_order(all.take(0)));
    for item in it: items.into_iter()
        invariant
            it.seq() == given,
            all == texts(given),
            texts(out@) == in_order(all.take(it.index() as int)),
    {
        let ghost i = it.index() as int;
        assert(all.take(i + 1).drop_last() =~= all.take(i));
        assert(all[i] == item@);
        place_text(&mut out, item);
    }
    assert(all.take(all.len() as int) =~= all);
    out
}

/// Texts with a mark between them.
pub open spec fn glued(items: Seq<Seq<char>>, mark: char) -> Seq<char>
    decreases items.len(),
{
    if items.len() == 0 {
        Seq::empty()
    } else if items.len() == 1 {
        items[0]
    } else {
        glued(items.drop_last(), mark).push(mark) + items.last()
    }
}

/// Cutting a text at a mark loses nothing but the marks: the pieces with marks
/// between them are the text, and no piece holds a mark.
pub proof fn law_pieces_make_the_text(s: Seq<char>, mark: char)
    ensures
        glued(pieces(s, mark), mark) == s,
        pieces(s, mark).len() >= 1,
        forall|i: int, k: int|
            0 <= i < pieces(s, mark).len() && 0 <= k < pieces(s, mark)[i].len()
                ==> #[trigger] pieces(s, mark)[i][k] != mark,
    decreases s.len(),
{
    let all = pieces(s, mark);
    if s.len() == 0 {
        assert(glued(all, mark) =~= s);
    } else {
        let shorter = s.drop_last();
        let rest = pieces(shorter, mark);
        law_pieces_make_the_text(shorter, mark);
        assert(s =~= shorter.push(s.last()));
        if s.last() == mark {
            assert(all.drop_last() =~= rest);
            assert(glued(all, mark) =~= s);
            assert forall|i: int, k: int|
                0 <= i < all.len() && 0 <= k < all[i].len() implies #[trigger] all[i][k] != mark by {
                assert(all[i] == rest[i]);
                assert(rest[i][k] != mark);
            }
        } else {
            assert(all.drop_last() =~= rest.drop_last());
            assert(all.last() =~= rest.last().push(s.last()));
            assert(glued(all, mark) =~= s);
            assert forall|i: int, k: int|
                0 <= i < all.len() && 0 <= k < all[i].len() implies #[trigger] all[i][k] != mark by {
                if i < all.len() - 1 || k < rest[i].len() {
                    assert(all[i][k] == rest[i][k]);
                    assert(rest[i][k] != mark);
                }
            }
        }
    }
}

/// The parts of a path are its pieces between slashes, in their order, without
/// empty ones and single points.
pub proof fn law_parts_are_the_naming_pieces(items: Seq<Seq<char>>, item: Seq<char>)
    ensures
        naming(Seq::empty()).len() == 0,
        item.len() > 0 && item != "."@ ==> naming(items.push(item)) == naming(items).push(item),
        item.len() == 0 || item == "."@ ==> naming(items.push(item)) == naming(items),
{
    assert(items.push(item).drop_last() =~= items);
}

/// A name is put behind its directory with one slash between, and an absolute
/// name stands for itself.
pub proof fn law_inside(dir: Seq<char>, name: Seq<char>)
    ensures
        name.len() > 0 && name[0] == '/' ==> inside(dir, name) == name,
        (name.len() == 0 || name[0] != '/') && dir.len() > 0 && dir.last() != '/' ==> inside(
            dir,
            name,
        ) == dir.push('/') + name,
        (name.len() == 0 || name[0] != '/') && dir.len() > 0 && dir.last() == '/' ==> inside(
            dir,
            name,
        ) == dir + name,
        (name.len() == 0 || name[0] != '/') && dir.len() == 0 ==> inside(dir, name) == name,
{
    reveal_strlit("/");
    assert("/"@ =~= seq!['/']);
    if name.len() > 0 {
        assert(name.subrange(0, 1) =~= seq![name[0]]);
        assert(name.subrange(0, 1)[0] == name[0]);
    }
    if dir.len() > 0 {
        assert(dir.subrange(dir.len() - 1, dir.len() as int) =~= seq![dir.last()]);
        assert(dir.subrange(dir.len() - 1, dir.len() as int)[0] == dir.last());
        assert(dir + "/"@ + name =~= dir.push('/') + name);
    }
    assert(dir.len() == 0 ==> dir + name =~= name);
}

/// The name of what a path leads to is its last part, and that of the directory
/// that holds it the last part but one, unless they lead upwards.
pub proof fn law_names_in_paths(dir: Seq<char>, name: Seq<char>)
    requires
        names(name),
        name != ".."@,
        forall|i: int| 0 <= i < name.len() ==> #[trigger] name[i] != '/',
    ensures
        name_of(inside(dir, name)) == Some(name),
        parts(dir).len() > 0 && parts(dir).last() != ".."@ ==> parent_name_of(inside(dir, name))
            == Some(parts(dir).last()),
        parts(dir).len() == 0 ==> parent_name_of(inside(dir, name)) is None,
{
    law_name_stays_inside(dir, name);
    let all = parts(inside(dir, name));
    assert(all == parts(dir).push(name));
    if parts(dir).len() > 0 {
        assert(all[all.len() - 2] == parts(dir).last());
    }
}

/// What follows the last point of a file's name is its extension, where
/// something precedes the point.
pub proof fn law_extensions(dir: Seq<char>, base: Seq<char>, extension: Seq<char>)
    requires
        base.len() > 0,
        forall|i: int| 0 <= i < base.len() ==> #[trigger] base[i] != '/',
        forall|i: int|
            0 <= i < extension.len() ==> #[trigger] extension[i] != '/' && extension[i] != '.',
        extension.len() > 0,
    ensures
        extension_of(inside(dir, base.push('.') + extension)) == Some(extension),
{
    reveal_strlit(".");
    reveal_strlit("..");
    let mark = "."@;
    let name = base.push('.') + extension;
    let at = base.len() as int;
    assert(mark =~= seq!['.']);
    assert(name.len() >= 3);
    assert forall|i: int| 0 <= i < name.len() implies #[trigger] name[i] != '/' by {
        if i < base.len() {
            assert(name[i] == base[i]);
        } else if i > base.len() {
            assert(name[i] == extension[i - base.len() - 1]);
        }
    }
    law_names_in_paths(dir, name);
    text::law_found(name, mark);
    assert(name.subrange(at, at + 1) =~= mark);
    assert(text::occurs_at(name, mark, at));
    assert forall|j: int| text::occurs_at(name, mark, j) implies j <= at by {
        if j > at {
            assert(name.subrange(j, j + 1)[0] == name[j]);
            assert(name[j] == extension[j - base.len() - 1]);
        }
    }
    assert(text::found_last(name, mark) == Some(at));
    assert(name.subrange(at + 1, name.len() as int) =~= extension);
}

proof fn lemma_first_piece(a: Seq<char>)
    ensures
        pieces(a, '/').len() >= 1,
        pieces(a, '/')[0].len() <= a.len(),
        a.take(pieces(a, '/')[0].len() as int) == pieces(a, '/')[0],
        !pieces(a, '/')[0].contains('/'),
        pieces(a, '/')[0].len() < a.len() ==> a[pieces(a, '/')[0].len() as int] == '/',
    decreases a.len(),
{
    if a.len() > 0 {
        let fewer = a.drop_last();
        lemma_first_piece(fewer);
        let first = pieces(a, '/')[0];
        let before = pieces(fewer, '/')[0];
        if before.len() < fewer.len() {
            if pieces(fewer, '/').len() == 1 {
                lemma_one_piece(fewer);
            }
            assert(first == before);
            assert(a.take(first.len() as int) =~= fewer.take(first.len() as int));
        } else {
            assert(fewer.take(before.len() as int) =~= fewer);
            assert(before == fewer);
            lemma_sole_piece(fewer);
            if a.last() == '/' {
                assert(first == before);
                assert(a.take(first.len() as int) =~= fewer);
            } else {
                assert(first == before.push(a.last()));
                assert(a.take(first.len() as int) =~= a);
                assert(a =~= before.push(a.last()));
                if first.contains('/') {
                    let k = choose|k: int| 0 <= k < first.len() && first[k] == '/';
                    if k < before.len() {
                        assert(before[k] == '/');
                    }
                }
            }
        }
    }
}

/// A text that is one piece has no mark in it.
proof fn lemma_one_piece(a: Seq<char>)
    requires
        pieces(a, '/').len() == 1,
    ensures
        pieces(a, '/')[0] == a,
    decreases a.len(),
{
    if a.len() > 0 {
        lemma_some_piece(a.drop_last());
        lemma_one_piece(a.drop_last());
        assert(a =~= a.drop_last().push(a.last()));
    } else {
        assert(pieces(a, '/')[0] =~= a);
    }
}

proof fn lemma_some_piece(a: Seq<char>)
    ensures
        pieces(a, '/').len() >= 1,
    decreases a.len(),
{
    if a.len() > 0 {
        lemma_some_piece(a.drop_last());
    }
}

/// A text without a mark is one piece.
proof fn lemma_sole_piece(a: Seq<char>)
    requires
        !a.contains('/'),
    ensures
        pieces(a, '/') == seq![a],
    decreases a.len(),
{
    if a.len() > 0 {
        let fewer = a.drop_last();
        if fewer.contains('/') {
            let k = choose|k: int| 0 <= k < fewer.len() && fewer[k] == '/';
            assert(a[k] == '/');
        }
        lemma_sole_piece(fewer);
        assert(a[a.len() - 1] != '/');
        assert(a =~= fewer.push(a.last()));
        assert(pieces(a, '/') =~= seq![a]);
    } else {
        assert(a =~= Seq::empty());
    }
}

/// Two paths lead to one place where their parts are the same, both begin at
/// the root or neither does, and both begin with `.` or neither does.
pub proof fn law_same_place(a: Seq<char>, b: Seq<char>)
    ensures
        same_place(a, b) <==> {
            &&& (a.len() > 0 && a[0] == '/') == (b.len() > 0 && b[0] == '/')
            &&& (a.len() > 0 && a[0] == '.' && (a.len() == 1 || a[1] == '/')) == (b.len() > 0 && b[0]
                == '.' && (b.len() == 1 || b[1] == '/'))
            &&& parts(a) == parts(b)
        },
{
    lemma_begins_at_root(a);
    lemma_begins_at_root(b);
}

proof fn lemma_begins_at_root(a: Seq<char>)
    ensures
        text::begins(a, "/"@) == (a.len() > 0 && a[0] == '/'),
        (pieces(a, '/')[0] == "."@) == (a.len() > 0 && a[0] == '.' && (a.len() == 1 || a[1] == '/')),
{
    reveal_strlit("/");
    reveal_strlit(".");
    lemma_first_piece(a);
    let first = pieces(a, '/')[0];
    assert("/"@ =~= seq!['/']);
    assert("."@ =~= seq!['.']);
    if a.len() > 0 {
        assert(a.subrange(0, 1) =~= seq![a[0]]);
        assert(seq![a[0]][0] == a[0]);
        assert(seq!['/'][0] == '/');
    }
    if first == "."@ {
        assert(first[0] == '.');
        assert(a.take(1)[0] == a[0]);
    }
    if a.len() > 0 && a[0] == '.' && (a.len() == 1 || a[1] == '/') {
        if first.len() == 0 {
            assert(a[0] == '/');
        }
        if first.len() > 1 {
            assert(a.take(first.len() as int)[1] == a[1]);
            assert(first.contains('/'));
        }
        assert(first[0] == a[0]);
        assert(first =~= "."@);
    }
}

} // verus!
