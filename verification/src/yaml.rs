//! YAML documents.
//!
//! A document stays the `serde_yaml::Value` that it was read as, and a mapping
//! the `serde_yaml::Mapping` that it holds. `YamlTree` says what they hold.

use vstd::prelude::*;
use crate::json;
use crate::json::JsonTree;

verus! {

/// `serde_yaml::Value`, a document.
#[verifier::external_type_specification]
#[verifier::external_body]
pub struct ExYamlValue(serde_yaml::Value);

/// `serde_yaml::Mapping`, the entries of a mapping in their order.
#[verifier::external_type_specification]
#[verifier::external_body]
pub struct ExYamlMapping(serde_yaml::Mapping);

/// `serde_yaml::Number`, which is carried through.
#[verifier::external_type_specification]
#[verifier::external_body]
pub struct ExYamlNumber(serde_yaml::Number);

/// `serde_yaml::value::Tag`, which is carried through.
#[verifier::external_type_specification]
#[verifier::external_body]
pub struct ExYamlTag(serde_yaml::value::Tag);

/// What a YAML document is.
pub enum YamlTree {
    Null,
    Bool(bool),
    Number(serde_yaml::Number),
    Text(Seq<char>),
    Sequence(Seq<YamlTree>),
    Mapping(Seq<(YamlTree, YamlTree)>),
    Tagged(serde_yaml::value::Tag, Box<YamlTree>),
}

/// The document that a `serde_yaml::Value` holds.
pub uninterp spec fn yaml_content(value: serde_yaml::Value) -> YamlTree;

/// The entries that a `serde_yaml::Mapping` holds, in their order.
pub uninterp spec fn mapping_content(mapping: serde_yaml::Mapping) -> Seq<(YamlTree, YamlTree)>;

/// Whether `serde_yaml::Value` takes two documents for one, neither of which
/// is a text.
pub uninterp spec fn same_other(a: YamlTree, b: YamlTree) -> bool;

/// Whether `serde_yaml::Value` takes two documents for one. A text is one
/// with the same text alone.
pub open spec fn same_key(a: YamlTree, b: YamlTree) -> bool {
    match (a, b) {
        (YamlTree::Text(x), YamlTree::Text(y)) => x == y,
        (YamlTree::Text(_), _) => false,
        (_, YamlTree::Text(_)) => false,
        _ => same_other(a, b),
    }
}

/// No two of the entries have one key.
pub open spec fn distinct_keys(entries: Seq<(YamlTree, YamlTree)>) -> bool {
    forall|i: int, j: int|
        0 <= i < entries.len() && 0 <= j < entries.len() && i != j ==> !same_key(
            (#[trigger] entries[i]).0,
            (#[trigger] entries[j]).0,
        )
}

/// No mapping in a document has one key twice.
pub open spec fn sound(tree: YamlTree) -> bool
    decreases tree,
{
    match tree {
        YamlTree::Sequence(items) => forall|i: int|
            0 <= i < items.len() ==> sound(#[trigger] items[i]),
        YamlTree::Mapping(entries) => {
            &&& distinct_keys(entries)
            &&& forall|i: int|
                0 <= i < entries.len() ==> sound((#[trigger] entries[i]).0) && sound(
                    entries[i].1,
                )
        },
        YamlTree::Tagged(_, inner) => sound(*inner),
        _ => true,
    }
}

/// A document without its tags.
pub open spec fn untagged(tree: YamlTree) -> YamlTree
    decreases tree,
{
    match tree {
        YamlTree::Tagged(_, inner) => untagged(*inner),
        _ => tree,
    }
}

/// The entries of a mapping, whatever its tags.
pub open spec fn entries_of(tree: YamlTree) -> Option<Seq<(YamlTree, YamlTree)>> {
    match untagged(tree) {
        YamlTree::Mapping(entries) => Some(entries),
        _ => None,
    }
}

/// A document with other entries in its mapping, under the same tags.
pub open spec fn with_entries(tree: YamlTree, entries: Seq<(YamlTree, YamlTree)>) -> YamlTree
    decreases tree,
{
    match tree {
        YamlTree::Tagged(tag, inner) => YamlTree::Tagged(
            tag,
            Box::new(with_entries(*inner, entries)),
        ),
        _ => YamlTree::Mapping(entries),
    }
}

/// The first position from `from` on of a key that is a text.
pub open spec fn key_from(
    entries: Seq<(YamlTree, YamlTree)>,
    key: Seq<char>,
    from: int,
) -> Option<int>
    decreases entries.len() - from,
{
    if from < 0 || from >= entries.len() {
        None
    } else if entries[from].0 == YamlTree::Text(key) {
        Some(from)
    } else {
        key_from(entries, key, from + 1)
    }
}

/// What stands under a key of entries.
pub open spec fn entry(entries: Seq<(YamlTree, YamlTree)>, key: Seq<char>) -> Option<YamlTree> {
    match key_from(entries, key, 0) {
        Some(i) => Some(entries[i].1),
        None => None,
    }
}

/// What stands under a key of a mapping.
pub open spec fn member(tree: YamlTree, key: Seq<char>) -> Option<YamlTree> {
    match untagged(tree) {
        YamlTree::Mapping(entries) => entry(entries, key),
        _ => None,
    }
}

/// The text that a document is, whatever its tags.
pub open spec fn text_of(tree: YamlTree) -> Option<Seq<char>> {
    match untagged(tree) {
        YamlTree::Text(s) => Some(s),
        _ => None,
    }
}

/// The text that stands under a key of a mapping.
pub open spec fn member_text(tree: YamlTree, key: Seq<char>) -> Option<Seq<char>> {
    match member(tree, key) {
        Some(value) => text_of(value),
        None => None,
    }
}

/// Entries with a value under a key: in the place of the one that is there,
/// or else at the end.
pub open spec fn put(
    entries: Seq<(YamlTree, YamlTree)>,
    key: Seq<char>,
    value: YamlTree,
) -> Seq<(YamlTree, YamlTree)> {
    match key_from(entries, key, 0) {
        Some(i) => entries.update(i, (entries[i].0, value)),
        None => entries.push((YamlTree::Text(key), value)),
    }
}

/// Entries without the one at `i`, whose place the last one takes.
pub open spec fn swap_removed(entries: Seq<(YamlTree, YamlTree)>, i: int) -> Seq<
    (YamlTree, YamlTree),
> {
    entries.update(i, entries.last()).drop_last()
}

/// A key that none of the entries has.
pub open spec fn lacks(entries: Seq<(YamlTree, YamlTree)>, key: YamlTree) -> bool {
    forall|i: int| 0 <= i < entries.len() ==> !same_key((#[trigger] entries[i]).0, key)
}

pub proof fn lemma_key_from(entries: Seq<(YamlTree, YamlTree)>, key: Seq<char>, from: int)
    requires
        0 <= from,
    ensures
        match key_from(entries, key, from) {
            Some(i) => from <= i < entries.len() && entries[i].0 == YamlTree::Text(key) && forall|
                k: int,
            |
                from <= k < i ==> (#[trigger] entries[k]).0 != YamlTree::Text(key),
            None => forall|k: int|
                from <= k < entries.len() ==> (#[trigger] entries[k]).0 != YamlTree::Text(key),
        },
    decreases entries.len() - from,
{
    if from < entries.len() && entries[from].0 != YamlTree::Text(key) {
        lemma_key_from(entries, key, from + 1);
    }
}

/// One level of a document.
pub enum YamlShape {
    Null,
    Bool(bool),
    Number(serde_yaml::Number),
    Text(String),
    Sequence(Vec<serde_yaml::Value>),
    Mapping(serde_yaml::Mapping),
    Tagged(serde_yaml::value::Tag, serde_yaml::Value),
}

/// The document that one level stands for.
pub open spec fn shape_tree(shape: YamlShape) -> YamlTree {
    match shape {
        YamlShape::Null => YamlTree::Null,
        YamlShape::Bool(b) => YamlTree::Bool(b),
        YamlShape::Number(n) => YamlTree::Number(n),
        YamlShape::Text(s) => YamlTree::Text(s@),
        YamlShape::Sequence(items) => YamlTree::Sequence(
            items@.map_values(|v: serde_yaml::Value| yaml_content(v)),
        ),
        YamlShape::Mapping(mapping) => YamlTree::Mapping(mapping_content(mapping)),
        YamlShape::Tagged(tag, inner) => YamlTree::Tagged(tag, Box::new(yaml_content(inner))),
    }
}

/// Takes a `serde_yaml::Value` apart: each variant of the enum becomes the
/// level that it is, with the values below it untouched.
#[verifier::external_body]
pub(crate) fn yaml_shape(value: serde_yaml::Value) -> (r: YamlShape)
    ensures
        shape_tree(r) == yaml_content(value),
{
    match value {
        serde_yaml::Value::Null => YamlShape::Null,
        serde_yaml::Value::Bool(b) => YamlShape::Bool(b),
        serde_yaml::Value::Number(n) => YamlShape::Number(n),
        serde_yaml::Value::String(s) => YamlShape::Text(s),
        serde_yaml::Value::Sequence(items) => YamlShape::Sequence(items),
        serde_yaml::Value::Mapping(mapping) => YamlShape::Mapping(mapping),
        serde_yaml::Value::Tagged(tagged) => YamlShape::Tagged(tagged.tag, tagged.value),
    }
}

/// Puts a `serde_yaml::Value` together: each level becomes the variant of the
/// enum that it is.
#[verifier::external_body]
pub(crate) fn yaml_assemble(shape: YamlShape) -> (r: serde_yaml::Value)
    ensures
        yaml_content(r) == shape_tree(shape),
{
    match shape {
        YamlShape::Null => serde_yaml::Value::Null,
        YamlShape::Bool(b) => serde_yaml::Value::Bool(b),
        YamlShape::Number(n) => serde_yaml::Value::Number(n),
        YamlShape::Text(s) => serde_yaml::Value::String(s),
        YamlShape::Sequence(items) => serde_yaml::Value::Sequence(items),
        YamlShape::Mapping(mapping) => serde_yaml::Value::Mapping(mapping),
        YamlShape::Tagged(tag, value) => serde_yaml::Value::Tagged(
            Box::new(serde_yaml::value::TaggedValue { tag, value }),
        ),
    }
}

/// `serde_yaml::Value::clone`: the copy holds the same document.
#[verifier::external_body]
pub(crate) fn copy_value(value: &serde_yaml::Value) -> (r: serde_yaml::Value)
    ensures
        yaml_content(r) == yaml_content(*value),
{
    value.clone()
}

/// `serde_yaml::Value::get` with a text: what stands under a key that is this
/// text, of a mapping under any tags.
#[verifier::external_body]
pub(crate) fn value_member<'a>(value: &'a serde_yaml::Value, key: &str) -> (r: Option<
    &'a serde_yaml::Value,
>)
    ensures
        match r {
            Some(found) => member(yaml_content(*value), key@) == Some(yaml_content(*found)),
            None => member(yaml_content(*value), key@) is None,
        },
{
    value.get(key)
}

/// `serde_yaml::Value::as_str`: the text that a document is, under any tags.
#[verifier::external_body]
pub(crate) fn value_text(value: &serde_yaml::Value) -> (r: Option<&str>)
    ensures
        json::opt_str(r) == text_of(yaml_content(*value)),
{
    value.as_str()
}

/// `serde_yaml::Mapping::new`: a mapping without entries.
#[verifier::external_body]
pub(crate) fn new_mapping() -> (r: serde_yaml::Mapping)
    ensures
        mapping_content(r) == Seq::<(YamlTree, YamlTree)>::empty(),
{
    serde_yaml::Mapping::new()
}

/// `serde_yaml::Mapping::get` with a text: what stands under a key that is
/// this text.
#[verifier::external_body]
pub(crate) fn mapping_member<'a>(mapping: &'a serde_yaml::Mapping, key: &str) -> (r: Option<
    &'a serde_yaml::Value,
>)
    ensures
        match r {
            Some(found) => entry(mapping_content(*mapping), key@) == Some(yaml_content(*found)),
            None => entry(mapping_content(*mapping), key@) is None,
        },
{
    mapping.get(key)
}

/// `serde_yaml::Mapping::contains_key`: whether one of the keys equals a
/// document, by `serde_yaml::Value::eq`. A text equals the same text alone.
#[verifier::external_body]
pub(crate) fn mapping_has(mapping: &serde_yaml::Mapping, key: &serde_yaml::Value) -> (r: bool)
    ensures
        yaml_content(*key) matches YamlTree::Text(s) ==> r == entry(
            mapping_content(*mapping),
            s,
        ) is Some,
        !(yaml_content(*key) is Text) ==> (r == (exists|i: int|
            0 <= i < mapping_content(*mapping).len() && !((
            #[trigger] mapping_content(*mapping)[i]).0 is Text) && same_other(
                mapping_content(*mapping)[i].0,
                yaml_content(*key),
            ))),
{
    mapping.contains_key(key)
}

/// Whether none of the entries of a mapping has a key.
pub(crate) fn mapping_lacks(mapping: &serde_yaml::Mapping, key: &serde_yaml::Value) -> (r: bool)
    ensures
        r == lacks(mapping_content(*mapping), yaml_content(*key)),
{
    let has = mapping_has(mapping, key);
    proof {
        let entries = mapping_content(*mapping);
        match yaml_content(*key) {
            YamlTree::Text(s) => {
                lemma_key_from(entries, s, 0);
                if has {
                    let i = key_from(entries, s, 0)->0;
                    assert(same_key(entries[i].0, yaml_content(*key)));
                }
            },
            _ => {
                if has {
                    let i = choose|i: int|
                        0 <= i < entries.len() && !((#[trigger] entries[i]).0 is Text)
                            && same_other(entries[i].0, yaml_content(*key));
                    assert(same_key(entries[i].0, yaml_content(*key)));
                }
            },
        }
    }
    !has
}

/// `serde_yaml::Mapping::insert`: a text as key has its value replaced where
/// it stands, and the value that was there is handed out; a key that the
/// mapping lacks is added at the end.
#[verifier::external_body]
pub(crate) fn mapping_insert(
    mapping: &mut serde_yaml::Mapping,
    key: serde_yaml::Value,
    value: serde_yaml::Value,
) -> (r: Option<serde_yaml::Value>)
    ensures
        yaml_content(key) matches YamlTree::Text(s) ==> mapping_content(*final(mapping)) == put(
            mapping_content(*old(mapping)),
            s,
            yaml_content(value),
        ) && match r {
            Some(previous) => entry(mapping_content(*old(mapping)), s) == Some(
                yaml_content(previous),
            ),
            None => entry(mapping_content(*old(mapping)), s) is None,
        },
        lacks(mapping_content(*old(mapping)), yaml_content(key)) ==> r is None && mapping_content(
            *final(mapping),
        ) == mapping_content(*old(mapping)).push((yaml_content(key), yaml_content(value))),
{
    mapping.insert(key, value)
}

/// `serde_yaml::Mapping::remove` with a text: the entry whose key is this text
/// is taken out and the last entry takes its place.
#[verifier::external_body]
pub(crate) fn mapping_remove(mapping: &mut serde_yaml::Mapping, key: &str) -> (r: Option<
    serde_yaml::Value,
>)
    ensures
        match (r, key_from(mapping_content(*old(mapping)), key@, 0)) {
            (Some(removed), Some(i)) => {
                &&& yaml_content(removed) == mapping_content(*old(mapping))[i].1
                &&& mapping_content(*final(mapping)) == swap_removed(
                    mapping_content(*old(mapping)),
                    i,
                )
            },
            (None, None) => mapping_content(*final(mapping)) == mapping_content(*old(mapping)),
            _ => false,
        },
{
    mapping.remove(key)
}

/// The documents that entries hold.
pub open spec fn entry_contents(entries: Seq<(serde_yaml::Value, serde_yaml::Value)>) -> Seq<
    (YamlTree, YamlTree),
> {
    entries.map_values(
        |e: (serde_yaml::Value, serde_yaml::Value)| (yaml_content(e.0), yaml_content(e.1)),
    )
}

/// `serde_yaml::Mapping::into_iter`: the entries of a mapping, in their order.
#[verifier::external_body]
pub(crate) fn mapping_entries(mapping: serde_yaml::Mapping) -> (r: Vec<
    (serde_yaml::Value, serde_yaml::Value),
>)
    ensures
        entry_contents(r@) == mapping_content(mapping),
{
    mapping.into_iter().collect()
}

/// The document of a text.
pub(crate) fn text_value(text: &str) -> (r: serde_yaml::Value)
    ensures
        yaml_content(r) == YamlTree::Text(text@),
{
    yaml_assemble(YamlShape::Text(text.to_owned()))
}

/// A mapping whose entries were taken out, by which they are put back.
pub enum Frame {
    Plain,
    Tagged(serde_yaml::value::Tag, Box<Frame>),
}

/// The tags of a frame around entries.
pub open spec fn framed(frame: Frame, entries: Seq<(YamlTree, YamlTree)>) -> YamlTree
    decreases frame,
{
    match frame {
        Frame::Plain => YamlTree::Mapping(entries),
        Frame::Tagged(tag, inner) => YamlTree::Tagged(tag, Box::new(framed(*inner, entries))),
    }
}

/// Takes a mapping out of its tags.
pub(crate) fn take_mapping(value: serde_yaml::Value) -> (r: Option<(Frame, serde_yaml::Mapping)>)
    ensures
        match r {
            Some(parts) => {
                &&& entries_of(yaml_content(value)) == Some(mapping_content(parts.1))
                &&& forall|e: Seq<(YamlTree, YamlTree)>| #[trigger]
                    framed(parts.0, e) == with_entries(yaml_content(value), e)
            },
            None => entries_of(yaml_content(value)) is None,
        },
    decreases yaml_content(value),
{
    match yaml_shape(value) {
        YamlShape::Mapping(mapping) => Some((Frame::Plain, mapping)),
        YamlShape::Tagged(tag, inner) => {
            assert(decreases_to!(yaml_content(value) => yaml_content(value)->Tagged_1));
            match take_mapping(inner) {
                Some(parts) => {
                    let ghost held = parts.0;
                    let frame = Frame::Tagged(tag, Box::new(parts.0));
                    assert forall|e: Seq<(YamlTree, YamlTree)>| #[trigger]
                        framed(frame, e) == with_entries(yaml_content(value), e) by {
                        assert(framed(held, e) == with_entries(yaml_content(inner), e));
                    }
                    Some((frame, parts.1))
                },
                None => None,
            }
        },
        _ => None,
    }
}

/// Puts a mapping back into its tags.
pub(crate) fn put_back(frame: Frame, mapping: serde_yaml::Mapping) -> (r: serde_yaml::Value)
    ensures
        yaml_content(r) == framed(frame, mapping_content(mapping)),
    decreases frame,
{
    match frame {
        Frame::Plain => yaml_assemble(YamlShape::Mapping(mapping)),
        Frame::Tagged(tag, inner) => yaml_assemble(
            YamlShape::Tagged(tag, put_back(*inner, mapping)),
        ),
    }
}

/// What `serde_yaml::from_str` makes of a text: a document, or its complaint.
pub uninterp spec fn parsed_yaml(source: Seq<char>) -> Result<YamlTree, Seq<char>>;

/// `serde_yaml::from_str` into a `serde_yaml::Value`; of an error, the text
/// that it displays. Both depend on the text alone. In the mappings of the
/// document no key stands twice.
#[verifier::external_body]
pub(crate) fn parse_yaml(source: &str) -> (r: Result<serde_yaml::Value, String>)
    ensures
        match r {
            Ok(value) => parsed_yaml(source@) == Ok::<YamlTree, Seq<char>>(yaml_content(value))
                && sound(yaml_content(value)),
            Err(error) => parsed_yaml(source@) == Err::<YamlTree, Seq<char>>(error@),
        },
{
    serde_yaml::from_str(source).map_err(|error| error.to_string())
}

/// What `serde_yaml::to_string` makes of a document: a text, or its complaint.
pub uninterp spec fn yaml_text(tree: YamlTree) -> Result<Seq<char>, Seq<char>>;

/// `serde_yaml::to_string` of a `serde_yaml::Value`; of an error, the text
/// that it displays. Both depend on the document alone.
#[verifier::external_body]
pub(crate) fn write_yaml(value: &serde_yaml::Value) -> (r: Result<String, String>)
    ensures
        match r {
            Ok(written) => yaml_text(yaml_content(*value)) == Ok::<Seq<char>, Seq<char>>(written@),
            Err(error) => yaml_text(yaml_content(*value)) == Err::<Seq<char>, Seq<char>>(error@),
        },
{
    serde_yaml::to_string(value).map_err(|error| error.to_string())
}

/// What `serde_yaml::to_value` makes of a JSON document: a YAML document, or
/// its complaint.
pub uninterp spec fn yaml_from_json(tree: JsonTree) -> Result<YamlTree, Seq<char>>;

/// `serde_yaml::to_value` of a `serde_json::Value`; of an error, the text that
/// it displays. Both depend on the document alone.
#[verifier::external_body]
pub(crate) fn convert_json(value: &serde_json::Value) -> (r: Result<serde_yaml::Value, String>)
    ensures
        match r {
            Ok(yaml) => yaml_from_json(json::json_content(*value)) == Ok::<YamlTree, Seq<char>>(
                yaml_content(yaml),
            ),
            Err(error) => yaml_from_json(json::json_content(*value)) == Err::<
                YamlTree,
                Seq<char>,
            >(error@),
        },
{
    serde_yaml::to_value(value).map_err(|error| error.to_string())
}

/// What `serde_json::to_value` makes of a YAML document: a JSON document, or
/// its complaint.
pub uninterp spec fn json_from_yaml(tree: YamlTree) -> Result<JsonTree, Seq<char>>;

/// `serde_json::to_value` of a `serde_yaml::Value`; of an error, the text that
/// it displays. Both depend on the document alone.
#[verifier::external_body]
fn json_from_value(value: &serde_yaml::Value) -> (r: Result<serde_json::Value, String>)
    ensures
        match r {
            Ok(json) => json_from_yaml(yaml_content(*value)) == Ok::<JsonTree, Seq<char>>(
                json::json_content(json),
            ),
            Err(error) => json_from_yaml(yaml_content(*value)) == Err::<JsonTree, Seq<char>>(
                error@,
            ),
        },
{
    serde_json::to_value(value).map_err(|error| error.to_string())
}

/// A document or a complaint, as a spec value.
pub open spec fn yaml_result(r: Result<serde_yaml::Value, String>) -> Result<YamlTree, Seq<char>> {
    match r {
        Ok(value) => Ok(yaml_content(value)),
        Err(error) => Err(error@),
    }
}

/// The view of a text or a complaint.
pub open spec fn text_result(r: Result<String, String>) -> Result<Seq<char>, Seq<char>> {
    match r {
        Ok(written) => Ok(written@),
        Err(error) => Err(error@),
    }
}

/// The JSON document of a YAML document.
pub fn convert_yaml(value: &serde_yaml::Value) -> (r: Result<json::Json, String>)
    ensures
        json::json_result(r) == json_from_yaml(yaml_content(*value)),
{
    match json_from_value(value) {
        Ok(value) => Ok(json::json_of(value)),
        Err(error) => Err(error),
    }
}

} // verus!
