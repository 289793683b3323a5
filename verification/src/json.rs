//! JSON values as plain data.

use vstd::prelude::*;

use crate::text;

verus! {

/// What a JSON document holds. Numbers carry no value: nothing in this library reads one.
pub enum JsonTree {
    Null,
    Bool(bool),
    Number,
    Text(Seq<char>),
    Array(Seq<JsonTree>),
    Object(Seq<(Seq<char>, JsonTree)>),
}

/// A JSON value.
pub enum Json {
    Null,
    Bool(bool),
    Number,
    Text(String),
    Array(Vec<Json>),
    Object(Vec<(String, Json)>),
}

impl Json {
    pub open spec fn tree(self) -> JsonTree
        decreases self,
    {
        match self {
            Json::Null => JsonTree::Null,
            Json::Bool(b) => JsonTree::Bool(b),
            Json::Number => JsonTree::Number,
            Json::Text(t) => JsonTree::Text(t@),
            Json::Array(items) => JsonTree::Array(
                Seq::new(
                    items@.len(),
                    |i: int|
                        if 0 <= i < items@.len() {
                            items@[i].tree()
                        } else {
                            JsonTree::Null
                        },
                ),
            ),
            Json::Object(entries) => JsonTree::Object(
                Seq::new(
                    entries@.len(),
                    |i: int|
                        if 0 <= i < entries@.len() {
                            (entries@[i].0@, entries@[i].1.tree())
                        } else {
                            (Seq::empty(), JsonTree::Null)
                        },
                ),
            ),
        }
    }
}

/// A value of the JSON parser.
#[verifier::external_type_specification]
#[verifier::external_body]
pub struct ExValue(serde_json::Value);

/// What a parsed value holds, in the parser's own entry order.
pub uninterp spec fn json_tree(value: serde_json::Value) -> JsonTree;

/// The document that `serde_json::from_str` reads from a text, if it reads one.
pub uninterp spec fn json_document(text: Seq<char>) -> Option<JsonTree>;

/// One level of a parsed value.
pub enum JsonNode {
    Null,
    Bool(bool),
    Number,
    Text(String),
    Array(Vec<serde_json::Value>),
    Object(Vec<(String, serde_json::Value)>),
}

pub open spec fn node_tree(node: JsonNode) -> JsonTree {
    match node {
        JsonNode::Null => JsonTree::Null,
        JsonNode::Bool(b) => JsonTree::Bool(b),
        JsonNode::Number => JsonTree::Number,
        JsonNode::Text(t) => JsonTree::Text(t@),
        JsonNode::Array(items) => JsonTree::Array(
            Seq::new(items@.len(), |i: int| json_tree(items@[i])),
        ),
        JsonNode::Object(entries) => JsonTree::Object(
            Seq::new(entries@.len(), |i: int| (entries@[i].0@, json_tree(entries@[i].1))),
        ),
    }
}

/// Calls `serde_json::from_str` for a `serde_json::Value`: it hands back the value that the
/// document spells, and fails where the text is no JSON document or one that is nested too deeply
/// for it.
#[verifier::external_body]
fn parse_value(text: &str) -> (r: Option<serde_json::Value>)
    ensures
        match r {
            Some(value) => json_document(text@) == Some(json_tree(value)),
            None => json_document(text@) is None,
        },
{
    serde_json::from_str::<serde_json::Value>(text).ok()
}

/// Takes a `serde_json::Value` apart by one level: a scalar is handed over as it is, an array
/// gives its items in order, an object its entries in the order in which it is walked.
#[verifier::external_body]
fn open_value(value: serde_json::Value) -> (r: JsonNode)
    ensures
        node_tree(r) == json_tree(value),
{
    match value {
        serde_json::Value::Null => JsonNode::Null,
        serde_json::Value::Bool(b) => JsonNode::Bool(b),
        serde_json::Value::Number(_) => JsonNode::Number,
        serde_json::Value::String(t) => JsonNode::Text(t),
        serde_json::Value::Array(items) => JsonNode::Array(items),
        serde_json::Value::Object(entries) => JsonNode::Object(entries.into_iter().collect()),
    }
}

fn json_of(value: serde_json::Value) -> (r: Json)
    ensures
        r.tree() == json_tree(value),
    decreases json_tree(value),
{
    match open_value(value) {
        JsonNode::Null => Json::Null,
        JsonNode::Bool(b) => Json::Bool(b),
        JsonNode::Number => Json::Number,
        JsonNode::Text(t) => Json::Text(t),
        JsonNode::Array(items) => {
            let ghost all = items@;
            let mut rest = items;
            let mut out: Vec<Json> = Vec::new();
            while rest.len() > 0
                invariant
                    json_tree(value) == JsonTree::Array(
                        Seq::new(all.len(), |i: int| json_tree(all[i])),
                    ),
                    out@.len() + rest@.len() == all.len(),
                    rest@ == all.skip(out@.len() as int),
                    forall|i: int| 0 <= i < out@.len() ==> out@[i].tree() == json_tree(all[i]),
                decreases rest@.len(),
            {
                let item = rest.remove(0);
                proof {
                    let k = out@.len() as int;
                    assert(item == all[k]);
                    assert(json_tree(value)->Array_0[k] == json_tree(item));
                }
                let ghost before = rest@;
                out.push(json_of(item));
                proof {
                    assert(rest@ =~= all.skip(out@.len() as int));
                }
            }
            let r = Json::Array(out);
            proof {
                assert(r.tree()->Array_0 =~= json_tree(value)->Array_0);
            }
            r
        },
        JsonNode::Object(entries) => {
            let ghost all = entries@;
            let mut rest = entries;
            let mut out: Vec<(String, Json)> = Vec::new();
            while rest.len() > 0
                invariant
                    json_tree(value) == JsonTree::Object(
                        Seq::new(all.len(), |i: int| (all[i].0@, json_tree(all[i].1))),
                    ),
                    out@.len() + rest@.len() == all.len(),
                    rest@ == all.skip(out@.len() as int),
                    forall|i: int|
                        0 <= i < out@.len() ==> (#[trigger] out@[i]).0@ == all[i].0@
                            && out@[i].1.tree() == json_tree(all[i].1),
                decreases rest@.len(),
            {
                let entry = rest.remove(0);
                proof {
                    let k = out@.len() as int;
                    assert(entry == all[k]);
                    assert(json_tree(value)->Object_0[k] == (entry.0@, json_tree(entry.1)));
                    assert(json_tree(value)->Object_0[k].1 == json_tree(entry.1));
                }
                let (key, inner) = entry;
                out.push((key, json_of(inner)));
                proof {
                    assert(rest@ =~= all.skip(out@.len() as int));
                }
            }
            let r = Json::Object(out);
            proof {
                assert(r.tree()->Object_0 =~= json_tree(value)->Object_0);
            }
            r
        },
    }
}

/// Reads a JSON document.
pub fn parse_json(text: &str) -> (r: Option<Json>)
    ensures
        match r {
            Some(json) => json_document(text@) == Some(json.tree()),
            None => json_document(text@) is None,
        },
{
    match parse_value(text) {
        Some(value) => Some(json_of(value)),
        None => None,
    }
}

} // verus!
