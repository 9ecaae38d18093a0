//! JSON documents as plain values.
//!
//! `serde_json` reads the text; the document that comes back is taken apart,
//! one level at a time, into [`Json`], and everything else works on that.

use vstd::prelude::*;
use crate::text::same_text;

verus! {

/// `serde_json::Value`, a document as the parser hands it over.
#[verifier::external_type_specification]
#[verifier::external_body]
pub struct ExJsonValue(serde_json::Value);

/// A JSON number. A number with a fraction or an exponent, or one beyond the
/// integers, is kept as the bits of its IEEE 754 double.
#[derive(Clone, Copy, Debug, PartialEq, Eq, Structural)]
pub enum JsonNumber {
    Unsigned(u64),
    Negative(i64),
    Real(u64),
}

/// A JSON document.
#[derive(Debug)]
pub enum Json {
    Null,
    Bool(bool),
    Number(JsonNumber),
    Text(String),
    Array(Vec<Json>),
    Object(Vec<(String, Json)>),
}

/// What a JSON document is.
pub enum JsonTree {
    Null,
    Bool(bool),
    Number(JsonNumber),
    Text(Seq<char>),
    Array(Seq<JsonTree>),
    Object(Seq<(Seq<char>, JsonTree)>),
}

impl View for Json {
    type V = JsonTree;

    open spec fn view(&self) -> JsonTree {
        json_tree(*self)
    }
}

/// The document that a value stands for.
pub open spec fn json_tree(json: Json) -> JsonTree
    decreases json,
{
    match json {
        Json::Null => JsonTree::Null,
        Json::Bool(b) => JsonTree::Bool(b),
        Json::Number(n) => JsonTree::Number(n),
        Json::Text(s) => JsonTree::Text(s@),
        Json::Array(items) => JsonTree::Array(
            Seq::new(
                items@.len(),
                |i: int|
                    if 0 <= i < items@.len() {
                        json_tree(items@[i])
                    } else {
                        JsonTree::Null
                    },
            ),
        ),
        Json::Object(members) => JsonTree::Object(
            Seq::new(
                members@.len(),
                |i: int|
                    if 0 <= i < members@.len() {
                        (members@[i].0@, json_tree(members@[i].1))
                    } else {
                        (Seq::empty(), JsonTree::Null)
                    },
            ),
        ),
    }
}

/// The document that a parsed `serde_json::Value` holds.
pub uninterp spec fn json_content(value: serde_json::Value) -> JsonTree;

/// What `serde_json::from_str` makes of a text: a document, or its complaint.
pub uninterp spec fn parsed_json(text: Seq<char>) -> Result<JsonTree, Seq<char>>;

/// What `serde_json::from_slice` makes of bytes: a document, or its complaint.
pub uninterp spec fn parsed_json_bytes(bytes: Seq<u8>) -> Result<JsonTree, Seq<char>>;

/// One level of a document.
pub enum JsonShape {
    Null,
    Bool(bool),
    Number(JsonNumber),
    Text(String),
    Array(Vec<serde_json::Value>),
    Object(Vec<(String, serde_json::Value)>),
}

/// The documents that the members of an object hold, in order.
pub open spec fn member_contents(members: Seq<(String, serde_json::Value)>) -> Seq<
    (Seq<char>, JsonTree),
> {
    members.map_values(|m: (String, serde_json::Value)| (m.0@, json_content(m.1)))
}

/// The document that one level stands for.
pub open spec fn shape_tree(shape: JsonShape) -> JsonTree {
    match shape {
        JsonShape::Null => JsonTree::Null,
        JsonShape::Bool(b) => JsonTree::Bool(b),
        JsonShape::Number(n) => JsonTree::Number(n),
        JsonShape::Text(s) => JsonTree::Text(s@),
        JsonShape::Array(items) => JsonTree::Array(
            items@.map_values(|v: serde_json::Value| json_content(v)),
        ),
        JsonShape::Object(members) => JsonTree::Object(member_contents(members@)),
    }
}

/// Takes a `serde_json::Value` apart: each variant of the enum becomes the
/// level that it is, with the values below it untouched.
#[verifier::external_body]
fn json_shape(value: serde_json::Value) -> (r: JsonShape)
    ensures
        shape_tree(r) == json_content(value),
{
    match value {
        serde_json::Value::Null => JsonShape::Null,
        serde_json::Value::Bool(b) => JsonShape::Bool(b),
        serde_json::Value::Number(n) => JsonShape::Number(match (n.as_u64(), n.as_i64()) {
            (Some(u), _) => JsonNumber::Unsigned(u),
            (None, Some(i)) => JsonNumber::Negative(i),
            (None, None) => JsonNumber::Real(n.as_f64().map_or(0, |x| x.to_bits())),
        }),
        serde_json::Value::String(s) => JsonShape::Text(s),
        serde_json::Value::Array(items) => JsonShape::Array(items),
        serde_json::Value::Object(members) => JsonShape::Object(members.into_iter().collect()),
    }
}

/// `serde_json::from_str` into a `serde_json::Value`; of an error, the text
/// that it displays.
#[verifier::external_body]
fn value_from_text(text: &str) -> (r: Result<serde_json::Value, String>)
    ensures
        match r {
            Ok(value) => parsed_json(text@) == Ok::<JsonTree, Seq<char>>(json_content(value)),
            Err(error) => parsed_json(text@) == Err::<JsonTree, Seq<char>>(error@),
        },
{
    serde_json::from_str(text).map_err(|error| error.to_string())
}

/// `serde_json::from_slice` into a `serde_json::Value`; of an error, the text
/// that it displays.
#[verifier::external_body]
pub(crate) fn value_from_bytes(bytes: &[u8]) -> (r: Result<serde_json::Value, String>)
    ensures
        match r {
            Ok(value) => parsed_json_bytes(bytes@) == Ok::<JsonTree, Seq<char>>(
                json_content(value),
            ),
            Err(error) => parsed_json_bytes(bytes@) == Err::<JsonTree, Seq<char>>(error@),
        },
{
    serde_json::from_slice(bytes).map_err(|error| error.to_string())
}

/// The document that a `serde_json::Value` holds, as plain values.
pub fn json_of(value: serde_json::Value) -> (r: Json)
    ensures
        r@ == json_content(value),
    decreases json_content(value),
{
    match json_shape(value) {
        JsonShape::Null => Json::Null,
        JsonShape::Bool(b) => Json::Bool(b),
        JsonShape::Number(n) => Json::Number(n),
        JsonShape::Text(s) => Json::Text(s),
        JsonShape::Array(items) => {
            let ghost all = items@;
            let mut out: Vec<Json> = Vec::new();
            for item in it: items.into_iter()
                invariant
                    it.seq() == all,
                    out@.len() == it.index(),
                    json_content(value) == JsonTree::Array(
                        all.map_values(|v: serde_json::Value| json_content(v)),
                    ),
                    forall|i: int|
                        0 <= i < out@.len() ==> json_tree(#[trigger] out@[i]) == json_content(
                            all[i],
                        ),
            {
                proof {
                    let trees = json_content(value)->Array_0;
                    let i = it.index() as int;
                    assert(trees[i] == json_content(item));
                    assert(decreases_to!(json_content(value) => trees));
                    assert(decreases_to!(trees => trees[i]));
                }
                out.push(json_of(item));
            }
            let json = Json::Array(out);
            assert(json@->Array_0 =~= json_content(value)->Array_0);
            json
        },
        JsonShape::Object(members) => {
            let ghost all = members@;
            let mut out: Vec<(String, Json)> = Vec::new();
            for member in it: members.into_iter()
                invariant
                    it.seq() == all,
                    out@.len() == it.index(),
                    json_content(value) == JsonTree::Object(member_contents(all)),
                    forall|i: int|
                        0 <= i < out@.len() ==> {
                            &&& (#[trigger] out@[i]).0@ == all[i].0@
                            &&& json_tree(out@[i].1) == json_content(all[i].1)
                        },
            {
                proof {
                    let trees = json_content(value)->Object_0;
                    let i = it.index() as int;
                    assert(trees[i] == (member.0@, json_content(member.1)));
                    assert(decreases_to!(json_content(value) => trees));
                    assert(decreases_to!(trees => trees[i]));
                    assert(decreases_to!(trees[i] => trees[i].1));
                }
                out.push((member.0, json_of(member.1)));
            }
            let json = Json::Object(out);
            assert(json@->Object_0 =~= json_content(value)->Object_0);
            json
        },
    }
}

/// The view of the outcome of reading a document.
pub open spec fn json_result(r: Result<Json, String>) -> Result<JsonTree, Seq<char>> {
    match r {
        Ok(json) => Ok(json@),
        Err(error) => Err(error@),
    }
}

/// Reads a JSON text.
pub fn parse_json(text: &str) -> (r: Result<Json, String>)
    ensures
        json_result(r) == parsed_json(text@),
{
    match value_from_text(text) {
        Ok(value) => Ok(json_of(value)),
        Err(error) => Err(error),
    }
}

/// Reads the bytes of a JSON file.
pub fn parse_json_bytes(bytes: &[u8]) -> (r: Result<Json, String>)
    ensures
        json_result(r) == parsed_json_bytes(bytes@),
{
    match value_from_bytes(bytes) {
        Ok(value) => Ok(json_of(value)),
        Err(error) => Err(error),
    }
}

/// The position of the member named `key`, counted from `from`.
pub open spec fn member_from(
    members: Seq<(Seq<char>, JsonTree)>,
    key: Seq<char>,
    from: int,
) -> Option<int>
    decreases members.len() - from,
{
    if from < 0 || from >= members.len() {
        None
    } else if members[from].0 == key {
        Some(from)
    } else {
        member_from(members, key, from + 1)
    }
}

impl JsonTree {
    /// The member named `key` of an object.
    pub open spec fn get(self, key: Seq<char>) -> Option<JsonTree> {
        match self {
            JsonTree::Object(members) => match member_from(members, key, 0) {
                Some(i) => Some(members[i].1),
                None => None,
            },
            _ => None,
        }
    }

    pub open spec fn as_text(self) -> Option<Seq<char>> {
        match self {
            JsonTree::Text(s) => Some(s),
            _ => None,
        }
    }

    /// The text of the member named `key`.
    pub open spec fn get_text(self, key: Seq<char>) -> Option<Seq<char>> {
        match self.get(key) {
            Some(value) => value.as_text(),
            None => None,
        }
    }

    pub open spec fn as_number(self) -> Option<JsonNumber> {
        match self {
            JsonTree::Number(n) => Some(n),
            _ => None,
        }
    }

    /// The number of the member named `key`.
    pub open spec fn get_number(self, key: Seq<char>) -> Option<JsonNumber> {
        match self.get(key) {
            Some(value) => value.as_number(),
            None => None,
        }
    }

    /// The number of the member named `key`, if it is a natural number of 64 bits.
    pub open spec fn get_u64(self, key: Seq<char>) -> Option<u64> {
        match self.get_number(key) {
            Some(JsonNumber::Unsigned(n)) => Some(n),
            _ => None,
        }
    }

    /// The number of the member named `key`, if it is an integer of 64 bits.
    pub open spec fn get_i64(self, key: Seq<char>) -> Option<i64> {
        match self.get_number(key) {
            Some(JsonNumber::Unsigned(n)) => if n <= i64::MAX {
                Some(n as i64)
            } else {
                None
            },
            Some(JsonNumber::Negative(n)) => Some(n),
            _ => None,
        }
    }

    /// The member named `key`, or else the member named `other`.
    pub open spec fn get_either(self, key: Seq<char>, other: Seq<char>) -> Option<JsonTree> {
        match self.get(key) {
            Some(value) => Some(value),
            None => self.get(other),
        }
    }

    /// The text of the member named `key` if there is one, and otherwise that
    /// of the member named `other`.
    pub open spec fn text_of_either(self, key: Seq<char>, other: Seq<char>) -> Option<Seq<char>> {
        match self.get_either(key, other) {
            Some(value) => value.as_text(),
            None => None,
        }
    }
}

/// The view of an optional reference to a document.
pub open spec fn opt_json(r: Option<&Json>) -> Option<JsonTree> {
    match r {
        Some(json) => Some(json@),
        None => None,
    }
}

/// The view of an optional reference to a text.
pub open spec fn opt_str(r: Option<&str>) -> Option<Seq<char>> {
    match r {
        Some(s) => Some(s@),
        None => None,
    }
}

impl Json {
    /// The member named `key` of an object.
    pub fn get(&self, key: &str) -> (r: Option<&Json>)
        ensures
            opt_json(r) == self@.get(key@),
    {
        match self {
            Json::Object(members) => {
                let ghost trees = self@->Object_0;
                let mut i: usize = 0;
                while i < members.len()
                    invariant
                        i <= members@.len(),
                        self@ == JsonTree::Object(trees),
                        trees.len() == members@.len(),
                        forall|j: int|
                            0 <= j < members@.len() ==> (#[trigger] trees[j]) == (
                                members@[j].0@,
                                json_tree(members@[j].1),
                            ),
                        member_from(trees, key@, 0) == member_from(trees, key@, i as int),
                    decreases members@.len() - i,
                {
                    assert(trees[i as int] == (members@[i as int].0@, json_tree(members@[i as int].1)));
                    if same_text(members[i].0.as_str(), key) {
                        return Some(&members[i].1);
                    }
                    i += 1;
                }
                None
            },
            _ => None,
        }
    }

    pub fn as_text(&self) -> (r: Option<&str>)
        ensures
            opt_str(r) == self@.as_text(),
    {
        match self {
            Json::Text(s) => Some(s.as_str()),
            _ => None,
        }
    }

    /// The text of the member named `key`.
    pub fn get_text(&self, key: &str) -> (r: Option<&str>)
        ensures
            opt_str(r) == self@.get_text(key@),
    {
        match self.get(key) {
            Some(value) => value.as_text(),
            None => None,
        }
    }

    pub fn as_number(&self) -> (r: Option<JsonNumber>)
        ensures
            r == self@.as_number(),
    {
        match self {
            Json::Number(n) => Some(*n),
            _ => None,
        }
    }

    /// The number of the member named `key`.
    pub fn get_number(&self, key: &str) -> (r: Option<JsonNumber>)
        ensures
            r == self@.get_number(key@),
    {
        match self.get(key) {
            Some(value) => value.as_number(),
            None => None,
        }
    }

    /// The number of the member named `key`, if it is a natural number of 64 bits.
    pub fn get_u64(&self, key: &str) -> (r: Option<u64>)
        ensures
            r == self@.get_u64(key@),
    {
        match self.get_number(key) {
            Some(JsonNumber::Unsigned(n)) => Some(n),
            _ => None,
        }
    }

    /// The number of the member named `key`, if it is an integer of 64 bits.
    pub fn get_i64(&self, key: &str) -> (r: Option<i64>)
        ensures
            r == self@.get_i64(key@),
    {
        match self.get_number(key) {
            Some(JsonNumber::Unsigned(n)) => if n <= i64::MAX as u64 {
                Some(n as i64)
            } else {
                None
            },
            Some(JsonNumber::Negative(n)) => Some(n),
            _ => None,
        }
    }

    /// The member named `key`, or else the member named `other`.
    pub fn get_either(&self, key: &str, other: &str) -> (r: Option<&Json>)
        ensures
            opt_json(r) == self@.get_either(key@, other@),
    {
        match self.get(key) {
            Some(value) => Some(value),
            None => self.get(other),
        }
    }

    /// The text of the member named `key` if there is one, and otherwise that
    /// of the member named `other`.
    pub fn text_of_either(&self, key: &str, other: &str) -> (r: Option<&str>)
        ensures
            opt_str(r) == self@.text_of_either(key@, other@),
    {
        match self.get_either(key, other) {
            Some(value) => value.as_text(),
            None => None,
        }
    }
}

/// `serde_json::Value::clone`: the copy holds the same document.
#[verifier::external_body]
fn copy_value(value: &serde_json::Value) -> (r: serde_json::Value)
    ensures
        json_content(r) == json_content(*value),
{
    value.clone()
}

/// The document that a borrowed `serde_json::Value` holds, as plain values.
pub fn json_at(value: &serde_json::Value) -> (r: Json)
    ensures
        r@ == json_content(*value),
{
    json_of(copy_value(value))
}

/// What `serde_json::to_vec_pretty` makes of a document: its bytes, or its
/// complaint.
pub uninterp spec fn pretty_json(tree: JsonTree) -> Result<Seq<u8>, Seq<char>>;

/// `serde_json::to_vec_pretty` of a `serde_json::Value`; of an error, the text
/// that it displays. Both depend on the document alone.
#[verifier::external_body]
pub(crate) fn pretty_bytes(value: &serde_json::Value) -> (r: Result<Vec<u8>, String>)
    ensures
        match r {
            Ok(bytes) => pretty_json(json_content(*value)) == Ok::<Seq<u8>, Seq<char>>(bytes@),
            Err(error) => pretty_json(json_content(*value)) == Err::<Seq<u8>, Seq<char>>(error@),
        },
{
    serde_json::to_vec_pretty(value).map_err(|error| error.to_string())
}

/// Two numbers that are one. Doubles are compared as such: the two zeros are
/// one.
pub open spec fn same_number(a: JsonNumber, b: JsonNumber) -> bool {
    match (a, b) {
        (JsonNumber::Real(x), JsonNumber::Real(y)) => x == y || ((x == 0 || x
            == 0x8000_0000_0000_0000) && (y == 0 || y == 0x8000_0000_0000_0000)),
        _ => a == b,
    }
}

/// Two documents that are one. The order of an object's members is of no
/// account.
pub open spec fn same_tree(a: JsonTree, b: JsonTree) -> bool
    decreases a,
{
    match (a, b) {
        (JsonTree::Null, JsonTree::Null) => true,
        (JsonTree::Bool(x), JsonTree::Bool(y)) => x == y,
        (JsonTree::Number(x), JsonTree::Number(y)) => same_number(x, y),
        (JsonTree::Text(x), JsonTree::Text(y)) => x == y,
        (JsonTree::Array(x), JsonTree::Array(y)) => x.len() == y.len() && forall|i: int|
            0 <= i < x.len() ==> same_tree(#[trigger] x[i], y[i]),
        (JsonTree::Object(x), JsonTree::Object(y)) => x.len() == y.len() && forall|i: int|
            0 <= i < x.len() ==> match member_from(y, (#[trigger] x[i]).0, 0) {
                Some(k) => same_tree(x[i].1, y[k].1),
                None => false,
            },
        _ => false,
    }
}

/// `serde_json::Value::eq`. Numbers of different kinds differ, doubles are
/// compared as such, and the order of an object's members is of no account.
#[verifier::external_body]
pub(crate) fn values_equal(a: &serde_json::Value, b: &serde_json::Value) -> (r: bool)
    ensures
        r == same_tree(json_content(*a), json_content(*b)),
{
    a == b
}

proof fn lemma_member_from(members: Seq<(Seq<char>, JsonTree)>, key: Seq<char>, from: int)
    requires
        0 <= from,
    ensures
        match member_from(members, key, from) {
            Some(i) => from <= i < members.len() && members[i].0 == key && forall|k: int|
                from <= k < i ==> (#[trigger] members[k]).0 != key,
            None => forall|k: int| from <= k < members.len() ==> (#[trigger] members[k]).0 != key,
        },
    decreases members.len() - from,
{
    if from < members.len() && members[from].0 != key {
        lemma_member_from(members, key, from + 1);
    }
}

/// The member of that name is found in an object where, and only where, there
/// is one, and the first of them counts; nothing but an object has members.
pub proof fn law_members_are_found(tree: JsonTree, key: Seq<char>)
    ensures
        tree matches JsonTree::Object(members) ==> match tree.get(key) {
            Some(value) => exists|i: int|
                0 <= i < members.len() && #[trigger] members[i] == (key, value) && forall|k: int|
                    0 <= k < i ==> (#[trigger] members[k]).0 != key,
            None => forall|k: int| 0 <= k < members.len() ==> (#[trigger] members[k]).0 != key,
        },
        !(tree is Object) ==> tree.get(key) is None,
{
    if let JsonTree::Object(members) = tree {
        lemma_member_from(members, key, 0);
        if let Some(i) = member_from(members, key, 0) {
            assert(members[i] == (key, members[i].1));
        }
    }
}

/// A member is read as what it is: a text as that text, a number as that
/// number, and an integer as that integer where it fits; of any other kind
/// nothing is read.
pub proof fn law_members_are_read_as_they_are(tree: JsonTree, key: Seq<char>, other: Seq<char>)
    ensures
        tree.get_text(key) == match tree.get(key) {
            Some(JsonTree::Text(s)) => Some(s),
            _ => None,
        },
        tree.get_number(key) == match tree.get(key) {
            Some(JsonTree::Number(n)) => Some(n),
            _ => None,
        },
        tree.get_u64(key) == match tree.get(key) {
            Some(JsonTree::Number(JsonNumber::Unsigned(n))) => Some(n),
            _ => None,
        },
        match (tree.get_i64(key), tree.get(key)) {
            (Some(read), Some(JsonTree::Number(JsonNumber::Unsigned(n)))) => read == n,
            (Some(read), Some(JsonTree::Number(JsonNumber::Negative(n)))) => read == n,
            (None, Some(JsonTree::Number(JsonNumber::Unsigned(n)))) => n > i64::MAX,
            (None, Some(JsonTree::Number(JsonNumber::Negative(n)))) => false,
            (read, _) => read is None,
        },
        tree.get(key) is Some ==> tree.get_either(key, other) == tree.get(key),
        tree.get(key) is None ==> tree.get_either(key, other) == tree.get(other),
        tree.get(key) is Some ==> tree.text_of_either(key, other) == tree.get_text(key),
        tree.get(key) is None ==> tree.text_of_either(key, other) == tree.get_text(other),
{
}

} // verus!
