//! JSON documents as plain trees.

use vstd::prelude::*;

use crate::text;

verus! {

/// A JSON document. A number is held as it is shown.
#[derive(Debug)]
pub enum Json {
    Null,
    Bool(bool),
    Number(String),
    Text(String),
    List(Vec<Json>),
    Object(Vec<(String, Json)>),
}

/// What a JSON document holds.
pub enum JsonTree {
    Null,
    Bool(bool),
    Number(Seq<char>),
    Text(Seq<char>),
    List(Seq<JsonTree>),
    Object(Seq<(Seq<char>, JsonTree)>),
}

/// One level of a `serde_json` value.
enum Node<'a> {
    Null,
    Bool(bool),
    Number(String),
    Text(String),
    List(&'a Vec<serde_json::Value>),
    Object(Vec<(String, &'a serde_json::Value)>),
}

/// `serde_json::Value`, carried and taken apart level by level.
#[verifier::external_type_specification]
#[verifier::external_body]
pub struct ExJsonValue(serde_json::Value);

/// `serde_json::Error`, carried only.
#[verifier::external_type_specification]
#[verifier::external_body]
pub struct ExJsonError(serde_json::Error);

/// What a `serde_json` value holds.
pub uninterp spec fn value_tree(value: serde_json::Value) -> JsonTree;

/// The document that `serde_json` reads from a text, nothing where it finds an error.
pub uninterp spec fn text_tree(text: Seq<char>) -> Option<JsonTree>;

spec fn node_tree(node: Node) -> JsonTree {
    match node {
        Node::Null => JsonTree::Null,
        Node::Bool(b) => JsonTree::Bool(b),
        Node::Number(n) => JsonTree::Number(n@),
        Node::Text(s) => JsonTree::Text(s@),
        Node::List(items) => JsonTree::List(
            Seq::new(items@.len(), |i: int| value_tree(items@[i])),
        ),
        Node::Object(members) => JsonTree::Object(
            Seq::new(members@.len(), |i: int| (members@[i].0@, value_tree(*members@[i].1))),
        ),
    }
}

/// `serde_json::from_str` at the type `serde_json::Value`. Whether it succeeds, and what the value
/// then holds, depends on the text alone.
#[verifier::external_body]
fn parse_value(text: &str) -> (r: Result<serde_json::Value, serde_json::Error>)
    ensures
        match r {
            Ok(value) => text_tree(text@) == Some(value_tree(value)),
            Err(_) => text_tree(text@) is None,
        },
{
    serde_json::from_str(text)
}

/// The variant of a `serde_json::Value` and what it directly holds, the members of an object in the
/// order in which `serde_json::Map::iter` gives them.
#[verifier::external_body]
fn node<'a>(value: &'a serde_json::Value) -> (r: Node<'a>)
    ensures
        node_tree(r) == value_tree(*value),
{
    match value {
        serde_json::Value::Null => Node::Null,
        serde_json::Value::Bool(b) => Node::Bool(*b),
        serde_json::Value::Number(n) => Node::Number(n.to_string()),
        serde_json::Value::String(s) => Node::Text(s.clone()),
        serde_json::Value::Array(items) => Node::List(items),
        serde_json::Value::Object(members) => Node::Object(
            members.iter().map(|m| (m.0.clone(), m.1)).collect(),
        ),
    }
}

impl Json {
    /// What the document holds.
    pub open spec fn tree(self) -> JsonTree
        decreases self,
    {
        match self {
            Json::Null => JsonTree::Null,
            Json::Bool(b) => JsonTree::Bool(b),
            Json::Number(n) => JsonTree::Number(n@),
            Json::Text(s) => JsonTree::Text(s@),
            Json::List(items) => JsonTree::List(
                Seq::new(
                    items@.len(),
                    |i: int|
                        if 0 <= i < items@.len() {
                            items@[i].tree()
                        } else {
                            JsonTree::Null
                        },
                ),
            ),
            Json::Object(members) => JsonTree::Object(
                Seq::new(
                    members@.len(),
                    |i: int|
                        if 0 <= i < members@.len() {
                            (members@[i].0@, members@[i].1.tree())
                        } else {
                            (Seq::empty(), JsonTree::Null)
                        },
                ),
            ),
        }
    }
}

/// A `serde_json` value as a plain tree.
fn json_of(value: &serde_json::Value) -> (r: Json)
    ensures
        r.tree() == value_tree(*value),
    decreases value_tree(*value),
{
    match node(value) {
        Node::Null => Json::Null,
        Node::Bool(b) => Json::Bool(b),
        Node::Number(n) => Json::Number(n),
        Node::Text(s) => Json::Text(s),
        Node::List(items) => {
            let mut out: Vec<Json> = Vec::new();
            let ghost trees = Seq::new(items@.len(), |i: int| value_tree(items@[i]));
            let mut i: usize = 0;
            while i < items.len()
                invariant
                    i <= items.len(),
                    out@.len() == i,
                    trees == Seq::new(items@.len(), |i: int| value_tree(items@[i])),
                    value_tree(*value) == JsonTree::List(trees),
                    forall|j: int| 0 <= j < i ==> (#[trigger] out@[j]).tree() == trees[j],
                decreases items.len() - i,
            {
                assert(decreases_to!(value_tree(*value) => value_tree(*value)->List_0));
                assert(decreases_to!(trees => trees[i as int]));
                out.push(json_of(&items[i]));
                i += 1;
            }
            let r = Json::List(out);
            assert(r.tree()->List_0 =~= trees);
            r
        },
        Node::Object(members) => {
            let mut out: Vec<(String, Json)> = Vec::new();
            let ghost trees = Seq::new(
                members@.len(),
                |i: int| (members@[i].0@, value_tree(*members@[i].1)),
            );
            let mut i: usize = 0;
            while i < members.len()
                invariant
                    i <= members.len(),
                    out@.len() == i,
                    trees == Seq::new(
                        members@.len(),
                        |i: int| (members@[i].0@, value_tree(*members@[i].1)),
                    ),
                    value_tree(*value) == JsonTree::Object(trees),
                    forall|j: int|
                        0 <= j < i ==> (#[trigger] out@[j]).0@ == trees[j].0 && out@[j].1.tree()
                            == trees[j].1,
                decreases members.len() - i,
            {
                assert(decreases_to!(value_tree(*value) => value_tree(*value)->Object_0));
                assert(decreases_to!(trees => trees[i as int]));
                assert(decreases_to!(trees[i as int] => trees[i as int].1));
                out.push((members[i].0.clone(), json_of(members[i].1)));
                i += 1;
            }
            let r = Json::Object(out);
            assert(r.tree()->Object_0 =~= trees);
            r
        },
    }
}

/// What a document holds, where one is given.
pub open spec fn tree_of(json: Option<Json>) -> Option<JsonTree> {
    match json {
        Some(j) => Some(j.tree()),
        None => None,
    }
}

/// Reads a JSON document, nothing where the text is none.
pub fn parse(text: &str) -> (r: Option<Json>)
    ensures
        tree_of(r) == text_tree(text@),
{
    match parse_value(text) {
        Ok(value) => Some(json_of(&value)),
        Err(_) => None,
    }
}

/// The first member of that name.
pub open spec fn lookup(members: Seq<(Seq<char>, JsonTree)>, key: Seq<char>) -> Option<JsonTree>
    decreases members.len(),
{
    if members.len() == 0 {
        None
    } else if members[0].0 == key {
        Some(members[0].1)
    } else {
        lookup(members.drop_first(), key)
    }
}

impl JsonTree {
    /// The member of an object by its name.
    pub open spec fn member(self, key: Seq<char>) -> Option<JsonTree> {
        match self {
            JsonTree::Object(members) => lookup(members, key),
            _ => None,
        }
    }

    /// The member of a member of an object, by their names.
    pub open spec fn inner(self, outer: Seq<char>, key: Seq<char>) -> Option<JsonTree> {
        match self.member(outer) {
            Some(t) => t.member(key),
            None => None,
        }
    }

    pub open spec fn as_text(self) -> Option<Seq<char>> {
        match self {
            JsonTree::Text(s) => Some(s),
            _ => None,
        }
    }

    pub open spec fn as_list(self) -> Option<Seq<JsonTree>> {
        match self {
            JsonTree::List(items) => Some(items),
            _ => None,
        }
    }
}

/// The text that a value is, where there is one and it is a text.
pub open spec fn text_in(t: Option<JsonTree>) -> Option<Seq<char>> {
    match t {
        Some(t) => t.as_text(),
        None => None,
    }
}

/// The items of the list that a value is, where there is one and it is a list.
pub open spec fn list_in(t: Option<JsonTree>) -> Option<Seq<JsonTree>> {
    match t {
        Some(t) => t.as_list(),
        None => None,
    }
}

/// What the documents in a list hold.
pub open spec fn trees(items: Seq<Json>) -> Seq<JsonTree> {
    Seq::new(items.len(), |i: int| items[i].tree())
}

impl Json {
    pub fn get<'a>(&'a self, key: &str) -> (r: Option<&'a Json>)
        ensures
            match r {
                Some(j) => self.tree().member(key@) == Some(j.tree()),
                None => self.tree().member(key@) is None,
            },
    {
        match self {
            Json::Object(members) => {
                let ghost all = self.tree()->Object_0;
                let mut i: usize = 0;
                assert(all.skip(0) =~= all);
                while i < members.len()
                    invariant
                        i <= members.len(),
                        *self == Json::Object(*members),
                        all == self.tree()->Object_0,
                        self.tree().member(key@) == lookup(all.skip(i as int), key@),
                    decreases members.len() - i,
                {
                    assert(all.skip(i as int)[0] == (
                        members@[i as int].0@,
                        members@[i as int].1.tree(),
                    ));
                    if text::same(members[i].0.as_str(), key) {
                        return Some(&members[i].1);
                    }
                    assert(all.skip(i as int).drop_first() =~= all.skip(i + 1));
                    i += 1;
                }
                None
            },
            _ => None,
        }
    }

    pub fn get_inner<'a>(&'a self, outer: &str, key: &str) -> (r: Option<&'a Json>)
        ensures
            match r {
                Some(j) => self.tree().inner(outer@, key@) == Some(j.tree()),
                None => self.tree().inner(outer@, key@) is None,
            },
    {
        match self.get(outer) {
            Some(j) => j.get(key),
            None => None,
        }
    }
}

/// The text that a document is, where there is one and it is a text.
pub fn text_of<'a>(json: Option<&'a Json>) -> (r: Option<&'a str>)
    ensures
        match (r, json) {
            (Some(s), Some(j)) => j.tree().as_text() == Some(s@),
            (None, Some(j)) => j.tree().as_text() is None,
            (_, None) => r is None,
        },
{
    match json {
        Some(Json::Text(s)) => Some(s.as_str()),
        _ => None,
    }
}

/// The items of the list that a document is, where there is one and it is a list.
pub fn list_of<'a>(json: Option<&'a Json>) -> (r: Option<&'a Vec<Json>>)
    ensures
        match (r, json) {
            (Some(v), Some(j)) => j.tree().as_list() == Some(trees(v@)),
            (None, Some(j)) => j.tree().as_list() is None,
            (_, None) => r is None,
        },
{
    match json {
        Some(j) => match j {
            Json::List(items) => {
                assert(j.tree()->List_0 =~= trees(items@));
                Some(items)
            },
            _ => None,
        },
        None => None,
    }
}

/// A member of an object is found by its name where no earlier member has the name, and a name that
/// none has is not found. What is no object has no members.
pub proof fn members_are_found_by_name(
    members: Seq<(Seq<char>, JsonTree)>,
    key: Seq<char>,
    k: int,
)
    ensures
        (0 <= k < members.len() && members[k].0 == key && forall|j: int|
            0 <= j < k ==> (#[trigger] members[j]).0 != key) ==> JsonTree::Object(members).member(key)
            == Some(members[k].1),
        (forall|j: int| 0 <= j < members.len() ==> (#[trigger] members[j]).0 != key)
            ==> JsonTree::Object(members).member(key) is None,
        JsonTree::List(Seq::empty()).member(key) is None,
        JsonTree::Text(key).member(key) is None,
        JsonTree::Null.member(key) is None,
    decreases members.len(),
{
    if members.len() > 0 {
        let rest = members.drop_first();
        members_are_found_by_name(rest, key, k - 1);
        if 0 < k < members.len() && members[k].0 == key && forall|j: int|
            0 <= j < k ==> (#[trigger] members[j]).0 != key {
            assert(members[0].0 != key);
            assert forall|j: int| 0 <= j < k - 1 implies (#[trigger] rest[j]).0 != key by {
                assert(rest[j] == members[j + 1]);
            }
            assert(rest[k - 1] == members[k]);
        }
        if forall|j: int| 0 <= j < members.len() ==> (#[trigger] members[j]).0 != key {
            assert(members[0].0 != key);
            assert forall|j: int| 0 <= j < rest.len() implies (#[trigger] rest[j]).0 != key by {
                assert(rest[j] == members[j + 1]);
            }
        }
    }
}

/// Only a text is read as a text, and only a list as a list, each as it is.
pub proof fn values_are_read_as_they_are(s: Seq<char>, items: Seq<JsonTree>, b: bool)
    ensures
        text_in(Some(JsonTree::Text(s))) == Some(s),
        list_in(Some(JsonTree::List(items))) == Some(items),
        text_in(Some(JsonTree::List(items))) is None,
        text_in(Some(JsonTree::Bool(b))) is None,
        text_in(Some(JsonTree::Number(s))) is None,
        text_in(Some(JsonTree::Null)) is None,
        text_in(None) is None,
        list_in(Some(JsonTree::Text(s))) is None,
        list_in(None) is None,
{
}

} // verus!
