//! JSON values of `serde_json`, and what the library reads of them.
use crate::text::text_le;
use crate::text::texts;
use vstd::prelude::*;

verus! {

/// `serde_json::Value`, of which only the functions below see the inside.
#[verifier::external_type_specification]
#[verifier::external_body]
pub struct ExValue(serde_json::Value);

/// `serde_json::Error`, which is carried and dropped.
#[verifier::external_type_specification]
#[verifier::external_body]
pub struct ExError(serde_json::Error);

/// `serde_json::Map`, of which only the functions below see the inside.
#[verifier::external_type_specification]
#[verifier::external_body]
#[verifier::reject_recursive_types(K)]
#[verifier::reject_recursive_types(V)]
pub struct ExMap<K, V>(serde_json::Map<K, V>);

/// What a JSON value holds. A number is its text and, where it is one, the `u64` it stands for.
pub enum JsonTree {
    Null,
    Bool(bool),
    Number(Seq<char>, Option<u64>),
    Text(Seq<char>),
    Array(Seq<JsonTree>),
    Object(Map<Seq<char>, JsonTree>),
}

impl JsonTree {
    /// The member of an object under a key.
    pub open spec fn member(self, key: Seq<char>) -> Option<JsonTree> {
        match self {
            JsonTree::Object(m) => if m.contains_key(key) {
                Some(m[key])
            } else {
                None
            },
            _ => None,
        }
    }

    /// The text of a JSON string.
    pub open spec fn text(self) -> Option<Seq<char>> {
        match self {
            JsonTree::Text(s) => Some(s),
            _ => None,
        }
    }

    /// The number as a `u64`.
    pub open spec fn natural(self) -> Option<u64> {
        match self {
            JsonTree::Number(_, n) => n,
            _ => None,
        }
    }

    /// The truth value.
    pub open spec fn truth(self) -> Option<bool> {
        match self {
            JsonTree::Bool(b) => Some(b),
            _ => None,
        }
    }

    /// The items of an array.
    pub open spec fn items(self) -> Option<Seq<JsonTree>> {
        match self {
            JsonTree::Array(s) => Some(s),
            _ => None,
        }
    }

    /// The text under a key, where the value is an object with a string there.
    pub open spec fn member_text(self, key: Seq<char>) -> Option<Seq<char>> {
        match self.member(key) {
            Some(v) => v.text(),
            None => None,
        }
    }

    /// The `u64` under a key, where the value is an object with such a number there.
    pub open spec fn member_natural(self, key: Seq<char>) -> Option<u64> {
        match self.member(key) {
            Some(v) => v.natural(),
            None => None,
        }
    }
}

/// What a `serde_json::Value` holds.
pub uninterp spec fn json_tree(v: serde_json::Value) -> JsonTree;

/// What `serde_json::from_str` reads a text as, or the text of the error it reports.
pub uninterp spec fn json_parsed(s: Seq<char>) -> Result<JsonTree, Seq<char>>;

/// The outcome of a parse: what was read, or the text of the error.
pub open spec fn parse_outcome(r: Result<serde_json::Value, String>) -> Result<
    JsonTree,
    Seq<char>,
> {
    match r {
        Ok(v) => Ok(json_tree(v)),
        Err(e) => Err(e@),
    }
}

/// `serde_json::from_str` into a `Value`: whether the text is JSON, what it holds, and what the
/// error says where it is not, is a function of the text, named `json_parsed`.
#[verifier::external_body]
pub(crate) fn parse_json(s: &str) -> (r: Result<serde_json::Value, String>)
    ensures
        parse_outcome(r) == json_parsed(s@),
{
    match serde_json::from_str(s) {
        Ok(v) => Ok(v),
        Err(e) => Err(e.to_string()),
    }
}

/// `serde_json::Value::get` with a string: the member under that key, where the value is an
/// object that has it.
#[verifier::external_body]
pub(crate) fn member<'a>(v: &'a serde_json::Value, key: &str) -> (r: Option<&'a serde_json::Value>)
    ensures
        match r {
            Some(m) => json_tree(*v).member(key@) == Some(json_tree(*m)),
            None => json_tree(*v).member(key@) is None,
        },
{
    v.get(key)
}

/// `serde_json::Value::as_str`: the text of a JSON string.
pub assume_specification[ serde_json::Value::as_str ](v: &serde_json::Value) -> (r: Option<&str>)
    ensures
        match r {
            Some(s) => json_tree(*v).text() == Some(s@),
            None => json_tree(*v).text() is None,
        },
;

/// `serde_json::Value::as_u64`: the number, where it is an integer from 0 to `u64::MAX`.
pub assume_specification[ serde_json::Value::as_u64 ](v: &serde_json::Value) -> (r: Option<u64>)
    ensures
        r == json_tree(*v).natural(),
;

/// `serde_json::Value::as_bool`: the truth value, where the value is one.
pub assume_specification[ serde_json::Value::as_bool ](v: &serde_json::Value) -> (r: Option<bool>)
    ensures
        r == json_tree(*v).truth(),
;

/// The trees of a sequence of values.
pub open spec fn json_trees(s: Seq<serde_json::Value>) -> Seq<JsonTree> {
    s.map_values(|v: serde_json::Value| json_tree(v))
}

/// `serde_json::Value::as_array`: the items of an array, in order.
pub assume_specification[ serde_json::Value::as_array ](v: &serde_json::Value) -> (r: Option<
    &Vec<serde_json::Value>,
>)
    ensures
        match r {
            Some(a) => json_tree(*v).items() == Some(json_trees(a@)),
            None => json_tree(*v).items() is None,
        },
;

/// `serde_json::Value`'s `Clone`: the clone holds what the value holds.
pub assume_specification[ <serde_json::Value as Clone>::clone ](v: &serde_json::Value) -> (r:
    serde_json::Value)
    ensures
        json_tree(r) == json_tree(*v),
;

/// What `serde_json::from_str` reads a text as where a list is asked for, or the text of the error
/// it reports.
pub uninterp spec fn json_list_parsed(s: Seq<char>) -> Result<Seq<JsonTree>, Seq<char>>;

/// The outcome of a parse into a list: its items, or the text of the error.
pub open spec fn list_outcome(r: Result<Vec<serde_json::Value>, String>) -> Result<
    Seq<JsonTree>,
    Seq<char>,
> {
    match r {
        Ok(v) => Ok(json_trees(v@)),
        Err(e) => Err(e@),
    }
}

/// `serde_json::from_str` into a list of values: whether the text is a JSON list, what it holds,
/// and what the error says where it is not, is a function of the text, named `json_list_parsed`.
#[verifier::external_body]
pub(crate) fn parse_json_list(s: &str) -> (r: Result<Vec<serde_json::Value>, String>)
    ensures
        list_outcome(r) == json_list_parsed(s@),
{
    match serde_json::from_str(s) {
        Ok(v) => Ok(v),
        Err(e) => Err(e.to_string()),
    }
}

/// Whether a value is the item at a place of the list that a text is read as.
pub open spec fn is_item_at(s: Seq<char>, i: int, t: JsonTree) -> bool {
    match json_list_parsed(s) {
        Ok(items) => 0 <= i < items.len() && items[i] == t,
        Err(_) => false,
    }
}

/// Whether a value came out of a list that was read.
pub open spec fn was_read(t: JsonTree) -> bool {
    exists|s: Seq<char>, i: int| is_item_at(s, i, t)
}

/// Whether every one of some values came out of a list that was read.
pub open spec fn were_read(items: Seq<JsonTree>) -> bool {
    forall|k: int| 0 <= k < items.len() ==> was_read(#[trigger] items[k])
}

/// Whether a text is read as a list of a number of items.
pub open spec fn reads_as_list_of(s: Seq<char>, n: nat) -> bool {
    match json_list_parsed(s) {
        Ok(items) => items.len() == n,
        Err(_) => false,
    }
}

/// The text that `serde_json::to_string_pretty` writes for a list of values.
pub uninterp spec fn json_pretty(items: Seq<JsonTree>) -> Seq<char>;

/// `serde_json::to_string_pretty` for a list of values: it succeeds, and the text is a function of
/// what the values hold, named `json_pretty`. It starts with the bracket that opens the list, and
/// `serde_json::from_str` reads it as a list of as many items, where every one of them came out of a
/// list that was read: then none is nested deeper than the reader goes. Nothing is said of the items
/// themselves, since a number with a fraction may be read as a neighbour of what was written.
#[verifier::external_body]
pub(crate) fn pretty(items: &Vec<serde_json::Value>) -> (r: Result<String, serde_json::Error>)
    ensures
        r is Ok,
        r.unwrap()@ == json_pretty(json_trees(items@)),
        r.unwrap()@.len() > 0 && r.unwrap()@[0] == '[',
        were_read(json_trees(items@)) ==> reads_as_list_of(r.unwrap()@, items@.len()),
{
    serde_json::to_string_pretty(items)
}

/// The view of an optional text.
pub open spec fn opt_str(o: Option<&str>) -> Option<Seq<char>> {
    match o {
        Some(s) => Some(s@),
        None => None,
    }
}

/// The text under a key.
pub fn member_text<'a>(v: &'a serde_json::Value, key: &str) -> (r: Option<&'a str>)
    ensures
        opt_str(r) == json_tree(*v).member_text(key@),
{
    match member(v, key) {
        Some(m) => m.as_str(),
        None => None,
    }
}

/// The `u64` under a key.
pub fn member_natural(v: &serde_json::Value, key: &str) -> (r: Option<u64>)
    ensures
        r == json_tree(*v).member_natural(key@),
{
    match member(v, key) {
        Some(m) => m.as_u64(),
        None => None,
    }
}

/// What a `serde_json::Map` holds.
pub uninterp spec fn json_members(m: serde_json::Map<String, serde_json::Value>) -> Map<
    Seq<char>,
    JsonTree,
>;

/// An object without members.
pub open spec fn no_members() -> Map<Seq<char>, JsonTree> {
    Map::empty()
}

/// `serde_json::Map::new`: an object without members.
#[verifier::external_body]
pub(crate) fn new_object() -> (r: serde_json::Map<String, serde_json::Value>)
    ensures
        json_members(r) == no_members(),
{
    serde_json::Map::new()
}

/// `serde_json::Map::insert`: sets a member, whether or not there was one under the key.
#[verifier::external_body]
pub(crate) fn set_member(
    m: &mut serde_json::Map<String, serde_json::Value>,
    key: String,
    v: serde_json::Value,
)
    ensures
        json_members(*final(m)) == json_members(*old(m)).insert(key@, json_tree(v)),
{
    m.insert(key, v);
}

/// Texts in strictly ascending order.
pub open spec fn ascending(s: Seq<Seq<char>>) -> bool {
    forall|i: int, j: int| 0 <= i < j < s.len() ==> text_le(#[trigger] s[i], #[trigger] s[j]) && s[i]
        != s[j]
}

/// `serde_json::Map::keys`: every key once, in ascending order, since the map is kept sorted.
#[verifier::external_body]
pub(crate) fn member_keys(m: &serde_json::Map<String, serde_json::Value>) -> (r: Vec<String>)
    ensures
        ascending(texts(r@)),
        forall|k: Seq<char>| #[trigger]
            texts(r@).contains(k) <==> json_members(*m).contains_key(k),
{
    m.keys().cloned().collect()
}

/// `serde_json::Value::as_object`: the members of an object.
#[verifier::external_body]
pub(crate) fn members(v: &serde_json::Value) -> (r: Option<
    serde_json::Map<String, serde_json::Value>,
>)
    ensures
        match r {
            Some(m) => json_tree(*v) == JsonTree::Object(json_members(m)),
            None => !(json_tree(*v) is Object),
        },
{
    v.as_object().cloned()
}

/// `serde_json::Value::Object`: the object with these members.
#[verifier::external_body]
pub(crate) fn object_value(m: serde_json::Map<String, serde_json::Value>) -> (r: serde_json::Value)
    ensures
        json_tree(r) == JsonTree::Object(json_members(m)),
{
    serde_json::Value::Object(m)
}

/// `serde_json::Value::from` a text: the JSON string.
#[verifier::external_body]
pub(crate) fn text_value(s: &str) -> (r: serde_json::Value)
    ensures
        json_tree(r) == JsonTree::Text(s@),
{
    serde_json::Value::from(s)
}

/// `serde_json::Value::from` a truth value.
#[verifier::external_body]
pub(crate) fn bool_value(b: bool) -> (r: serde_json::Value)
    ensures
        json_tree(r) == JsonTree::Bool(b),
{
    serde_json::Value::from(b)
}

/// `serde_json::Value::from` a list: the JSON array of these values.
#[verifier::external_body]
pub(crate) fn array_value(items: Vec<serde_json::Value>) -> (r: serde_json::Value)
    ensures
        json_tree(r) == JsonTree::Array(json_trees(items@)),
{
    serde_json::Value::from(items)
}

/// The text that a value is written as, without whitespace.
pub uninterp spec fn json_compact(t: JsonTree) -> Seq<char>;

/// `serde_json::Value`'s `to_string`: a function of what the value holds, named `json_compact`.
#[verifier::external_body]
pub(crate) fn compact(v: &serde_json::Value) -> (r: String)
    ensures
        r@ == json_compact(json_tree(*v)),
{
    v.to_string()
}

} // verus!
