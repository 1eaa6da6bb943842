//! JSON values as the library reads them.
use vstd::prelude::*;

use crate::text::same_text;

verus! {

/// A JSON value. A number is kept where it is an integer from 0 to 2^64 - 1; an object's entries
/// are kept in the order in which the parser hands them out.
#[derive(Debug)]
pub enum Json {
    Null,
    Bool(bool),
    Number(Option<u64>),
    Text(String),
    List(Vec<Json>),
    Record(Vec<(String, Json)>),
}

/// What a JSON value is, with texts as sequences of characters.
pub enum Tree {
    Null,
    Bool(bool),
    Number(Option<u64>),
    Text(Seq<char>),
    List(Seq<Tree>),
    Record(Seq<(Seq<char>, Tree)>),
}

impl Json {
    /// The value's tree.
    pub open spec fn tree(&self) -> Tree
        decreases self,
    {
        match self {
            Json::Null => Tree::Null,
            Json::Bool(b) => Tree::Bool(*b),
            Json::Number(n) => Tree::Number(*n),
            Json::Text(s) => Tree::Text(s@),
            Json::List(v) => Tree::List(
                Seq::new(
                    v@.len(),
                    |i: int|
                        if 0 <= i < v@.len() {
                            v@[i].tree()
                        } else {
                            Tree::Null
                        },
                ),
            ),
            Json::Record(v) => Tree::Record(
                Seq::new(
                    v@.len(),
                    |i: int|
                        if 0 <= i < v@.len() {
                            (v@[i].0@, v@[i].1.tree())
                        } else {
                            (seq![], Tree::Null)
                        },
                ),
            ),
        }
    }
}

/// A JSON value of the `serde_json` crate.
#[verifier::external_type_specification]
#[verifier::external_body]
pub struct ExValue(serde_json::Value);

/// The tree that a value of the `serde_json` crate holds.
pub uninterp spec fn held_tree(value: serde_json::Value) -> Tree;

/// What the JSON parser makes of a text: its tree, or what is wrong with the text.
pub uninterp spec fn json_parsed(body: Seq<char>) -> Result<Tree, Seq<char>>;

/// `serde_json::from_str` into `serde_json::Value`: the value that the text stands for, or the
/// parser's message.
#[verifier::external_body]
fn read_value(body: &str) -> (r: Result<serde_json::Value, String>)
    ensures
        match r {
            Ok(v) => json_parsed(body@) == Ok::<Tree, Seq<char>>(held_tree(v)),
            Err(e) => json_parsed(body@) == Err::<Tree, Seq<char>>(e@),
        },
{
    serde_json::from_str(body).map_err(|e| e.to_string())
}

/// Takes a `serde_json::Value` apart: the same tree, variant for variant. `Number::as_u64` tells
/// the integers from 0 to 2^64 - 1 from the other numbers.
#[verifier::external_body]
fn json_of(value: serde_json::Value) -> (r: Json)
    ensures
        r.tree() == held_tree(value),
{
    match value {
        serde_json::Value::Null => Json::Null,
        serde_json::Value::Bool(b) => Json::Bool(b),
        serde_json::Value::Number(n) => Json::Number(n.as_u64()),
        serde_json::Value::String(s) => Json::Text(s),
        serde_json::Value::Array(a) => Json::List(a.into_iter().map(json_of).collect()),
        serde_json::Value::Object(o) => {
            Json::Record(o.into_iter().map(|(k, v)| (k, json_of(v))).collect())
        },
    }
}

/// Parses a JSON text.
pub fn parse_json(body: &str) -> (r: Result<Json, String>)
    ensures
        match r {
            Ok(j) => json_parsed(body@) == Ok::<Tree, Seq<char>>(j.tree()),
            Err(e) => json_parsed(body@) == Err::<Tree, Seq<char>>(e@),
        },
{
    match read_value(body) {
        Ok(v) => Ok(json_of(v)),
        Err(e) => Err(e),
    }
}

// ---------------------------------------------------------------------------
// Looking into a value
// ---------------------------------------------------------------------------

/// The value of the first entry named `key`, or null.
pub open spec fn entry(entries: Seq<(Seq<char>, Tree)>, key: Seq<char>) -> Tree
    decreases entries.len(),
{
    if entries.len() == 0 {
        Tree::Null
    } else if entries[0].0 == key {
        entries[0].1
    } else {
        entry(entries.drop_first(), key)
    }
}

impl Tree {
    /// An object's value for `key`; null where there is none or where this is no object.
    pub open spec fn field(self, key: Seq<char>) -> Tree {
        match self {
            Tree::Record(entries) => entry(entries, key),
            _ => Tree::Null,
        }
    }

    /// A list's value at `i`; null where there is none or where this is no list.
    pub open spec fn item(self, i: int) -> Tree {
        match self {
            Tree::List(items) if 0 <= i < items.len() => items[i],
            _ => Tree::Null,
        }
    }

    /// The text that the value is, if it is one.
    pub open spec fn text(self) -> Option<Seq<char>> {
        match self {
            Tree::Text(s) => Some(s),
            _ => None,
        }
    }

    /// The values in the list that the value is; none where it is no list.
    pub open spec fn items(self) -> Seq<Tree> {
        match self {
            Tree::List(items) => items,
            _ => seq![],
        }
    }
}

/// The tree of a value that may be missing, which is null.
pub open spec fn tree_or_null(j: Option<&Json>) -> Tree {
    match j {
        Some(j) => j.tree(),
        None => Tree::Null,
    }
}

/// An object's value for `key`.
pub(crate) fn field<'a>(j: Option<&'a Json>, key: &str) -> (r: Option<&'a Json>)
    ensures
        tree_or_null(r) == tree_or_null(j).field(key@),
{
    match j {
        Some(Json::Record(entries)) => {
            let ghost all = j->0.tree()->Record_0;
            let mut i: usize = 0;
            assert(all.skip(0) =~= all);
            while i < entries.len()
                invariant
                    i <= entries@.len(),
                    all.len() == entries@.len(),
                    tree_or_null(j) == Tree::Record(all),
                    forall|k: int|
                        0 <= k < all.len() ==> #[trigger] all[k] == (
                            entries@[k].0@,
                            entries@[k].1.tree(),
                        ),
                    entry(all, key@) == entry(all.skip(i as int), key@),
                decreases entries@.len() - i,
            {
                assert(all[i as int] == (entries@[i as int].0@, entries@[i as int].1.tree()));
                if same_text(entries[i].0.as_str(), key) {
                    return Some(&entries[i].1);
                }
                assert(all.skip(i as int).drop_first() =~= all.skip(i + 1));
                i = i + 1;
            }
            None
        },
        _ => None,
    }
}

/// A list's value at `i`.
pub(crate) fn item<'a>(j: Option<&'a Json>, i: usize) -> (r: Option<&'a Json>)
    ensures
        tree_or_null(r) == tree_or_null(j).item(i as int),
{
    match j {
        Some(Json::List(items)) => if i < items.len() {
            Some(&items[i])
        } else {
            None
        },
        _ => None,
    }
}

/// The text that the value is, if it is one.
pub(crate) fn as_text(j: Option<&Json>) -> (r: Option<String>)
    ensures
        match r {
            Some(s) => tree_or_null(j).text() == Some(s@),
            None => tree_or_null(j).text() is None,
        },
{
    match j {
        Some(Json::Text(s)) => Some(s.clone()),
        _ => None,
    }
}

// ---------------------------------------------------------------------------
// Laws
// ---------------------------------------------------------------------------

/// An object's value for a key is that of its first entry with that key, and null where it has
/// none; what is no object has no entries.
pub proof fn law_field(entries: Seq<(Seq<char>, Tree)>, key: Seq<char>, i: int)
    ensures
        0 <= i < entries.len() && entries[i].0 == key && (forall|k: int|
            0 <= k < i ==> (#[trigger] entries[k]).0 != key) ==> Tree::Record(entries).field(key)
            == entries[i].1,
        (forall|k: int| 0 <= k < entries.len() ==> (#[trigger] entries[k]).0 != key)
            ==> Tree::Record(entries).field(key) == Tree::Null,
        forall|t: Tree| !(t is Record) ==> #[trigger] t.field(key) == Tree::Null,
    decreases entries.len(),
{
    if entries.len() > 0 && entries[0].0 != key {
        let rest = entries.drop_first();
        assert(forall|k: int| 0 <= k < rest.len() ==> rest[k] == #[trigger] entries[k + 1]);
        law_field(rest, key, i - 1);
        assert(Tree::Record(entries).field(key) == Tree::Record(rest).field(key));
    }
}

/// A list's values are found by their positions; there are none elsewhere, and none in what is no
/// list.
pub proof fn law_item(items: Seq<Tree>, i: int)
    ensures
        0 <= i < items.len() ==> Tree::List(items).item(i) == items[i],
        i < 0 || i >= items.len() ==> Tree::List(items).item(i) == Tree::Null,
        forall|t: Tree| !(t is List) ==> #[trigger] t.item(i) == Tree::Null,
        Tree::List(items).items() == items,
        forall|t: Tree| !(t is List) ==> (#[trigger] t.items()).len() == 0,
{
}

/// Only a text has a text, which is its own.
pub proof fn law_text(t: Tree)
    ensures
        t matches Tree::Text(s) ==> t.text() == Some(s),
        !(t is Text) ==> t.text() is None,
{
}

/// A value's tree has the value's own parts, in their places.
pub proof fn law_tree(
    items: Vec<Json>,
    entries: Vec<(String, Json)>,
    s: String,
    b: bool,
    n: Option<u64>,
)
    ensures
        Json::Null.tree() == Tree::Null,
        Json::Bool(b).tree() == Tree::Bool(b),
        Json::Number(n).tree() == Tree::Number(n),
        Json::Text(s).tree() == Tree::Text(s@),
        Json::List(items).tree().items().len() == items@.len(),
        forall|i: int|
            0 <= i < items@.len() ==> #[trigger] Json::List(items).tree().items()[i]
                == items@[i].tree(),
        Json::Record(entries).tree() is Record,
        Json::Record(entries).tree()->Record_0.len() == entries@.len(),
        forall|i: int|
            0 <= i < entries@.len() ==> #[trigger] Json::Record(entries).tree()->Record_0[i] == (
                entries@[i].0@,
                entries@[i].1.tree(),
            ),
{
}

} // verus!
