//! JSON documents, read and written by `serde_json`.

use vstd::prelude::*;

verus! {

/// What a JSON document says.
pub enum Tree {
    /// The literal `null`.
    Null,
    /// One of the literals `true` and `false`.
    Bool(bool),
    /// A number, as it is written out.
    Number(Seq<char>),
    /// A string.
    Text(Seq<char>),
    /// An array.
    Array(Seq<Tree>),
    /// An object; of members with the same name the last one counts.
    Object(Map<Seq<char>, Tree>),
}

/// `serde_json::Value`: any JSON value.
#[verifier::external_type_specification]
#[verifier::external_body]
pub struct ExValue(serde_json::Value);

/// `serde_json::Map`: the members of a JSON object.
#[verifier::external_type_specification]
#[verifier::external_body]
#[verifier::reject_recursive_types(K)]
#[verifier::reject_recursive_types(V)]
pub struct ExMembers<K, V>(serde_json::Map<K, V>);

/// What a JSON value holds.
pub uninterp spec fn tree(v: serde_json::Value) -> Tree;

/// What the members of a JSON object hold.
pub uninterp spec fn members(m: serde_json::Map<String, serde_json::Value>) -> Map<Seq<char>, Tree>;

/// What the JSON reader makes of a text: the document in it, or the reader's complaint.
pub uninterp spec fn reading(text: Seq<char>) -> Result<Tree, Seq<char>>;

/// The compact JSON text of a value.
pub uninterp spec fn rendering(t: Tree) -> Seq<char>;

/// The member of an object, and `null` for everything else.
pub open spec fn member(t: Tree, key: Seq<char>) -> Tree {
    match t {
        Tree::Object(m) if m.contains_key(key) => m[key],
        _ => Tree::Null,
    }
}

/// The element of an array, and `null` for everything else.
pub open spec fn element(t: Tree, i: int) -> Tree {
    match t {
        Tree::Array(items) if 0 <= i < items.len() => items[i],
        _ => Tree::Null,
    }
}

/// The string that a value is, if it is one.
pub open spec fn text_of(t: Tree) -> Option<Seq<char>> {
    match t {
        Tree::Text(s) => Some(s),
        _ => None,
    }
}

/// An object all of whose members are strings.
pub open spec fn is_flat(t: Tree) -> bool {
    match t {
        Tree::Object(m) => forall|k: Seq<char>| m.contains_key(k) ==> #[trigger] m[k] is Text,
        _ => false,
    }
}

/// An object without members.
pub open spec fn no_members() -> Map<Seq<char>, Tree> {
    Map::empty()
}

/// Whether the JSON reader finds the document `t` in a text.
pub open spec fn reads_as(text: Seq<char>, t: Tree) -> bool {
    reading(text) matches Ok(found) && found == t
}

/// A value that was read and that holds `t`.
pub open spec fn is_reading_of(r: Result<serde_json::Value, String>, t: Tree) -> bool {
    r matches Ok(v) && tree(v) == t
}

/// An object with one member.
pub open spec fn one_member(key: Seq<char>, t: Tree) -> Tree {
    Tree::Object(Map::empty().insert(key, t))
}

/// `serde_json::from_str` reads one value; the text of its error stands for the error. The text
/// `{"n":1}` is an object with the one member `n`, which is the number `1`.
#[verifier::external_body]
pub(crate) fn read(text: &str) -> (r: Result<serde_json::Value, String>)
    ensures
        match r {
            Ok(v) => reading(text@) matches Ok(t) && t == tree(v),
            Err(e) => reading(text@) matches Err(complaint) && complaint == e@,
        },
        text@ == "{\"n\":1}"@ ==> is_reading_of(r, one_member("n"@, Tree::Number("1"@))),
{
    serde_json::from_str(text).map_err(|e| e.to_string())
}

/// Indexing a value by a name gives the member, or `null` where there is none.
#[verifier::external_body]
pub(crate) fn by_name<'a>(v: &'a serde_json::Value, key: &str) -> (r: &'a serde_json::Value)
    ensures
        tree(*r) == member(tree(*v), key@),
{
    &v[key]
}

/// Indexing a value by a position gives the element, or `null` where there is none.
#[verifier::external_body]
pub(crate) fn by_position<'a>(v: &'a serde_json::Value, i: usize) -> (r: &'a serde_json::Value)
    ensures
        tree(*r) == element(tree(*v), i as int),
{
    &v[i]
}

/// `Value::get` by a name gives the member, if the value is an object that has it.
#[verifier::external_body]
pub(crate) fn lookup<'a>(v: &'a serde_json::Value, key: &str) -> (r: Option<&'a serde_json::Value>)
    ensures
        match r {
            Some(m) => tree(*v) matches Tree::Object(all) && all.contains_key(key@) && tree(*m)
                == all[key@],
            None => !(tree(*v) matches Tree::Object(all) && all.contains_key(key@)),
        },
{
    v.get(key)
}

/// `Value::is_null` tells `null` from everything else.
pub assume_specification[ serde_json::Value::is_null ](v: &serde_json::Value) -> (b: bool)
    ensures
        b == (tree(*v) is Null),
;

/// `Value::as_str` gives the string that a value is, if it is one.
pub assume_specification[ serde_json::Value::as_str ](v: &serde_json::Value) -> (r: Option<&str>)
    ensures
        match r {
            Some(s) => text_of(tree(*v)) == Some(s@),
            None => text_of(tree(*v)) is None,
        },
;

/// `Map::new` has no members.
pub assume_specification[ serde_json::Map::<String, serde_json::Value>::new ]() -> (m:
    serde_json::Map<String, serde_json::Value>)
    ensures
        members(m) == no_members(),
;

/// `Map::insert` adds a member, in place of one with the same name.
#[verifier::external_body]
pub(crate) fn insert(m: &mut serde_json::Map<String, serde_json::Value>, key: &str, text: &str)
    ensures
        members(*final(m)) == members(*old(m)).insert(key@, Tree::Text(text@)),
{
    m.insert(key.to_string(), serde_json::Value::String(text.to_string()));
}

/// The `Display` text of an object: compact JSON, which for an object of strings reads back as
/// the same object. So it is never the text `{"n":1}`, whose member is no string.
#[verifier::external_body]
pub(crate) fn render(m: serde_json::Map<String, serde_json::Value>) -> (text: String)
    ensures
        text@ == rendering(Tree::Object(members(m))),
        is_flat(Tree::Object(members(m))) ==> reads_as(text@, Tree::Object(members(m))),
        is_flat(Tree::Object(members(m))) ==> text@ != "{\"n\":1}"@,
{
    serde_json::Value::Object(m).to_string()
}

} // verus!
