use vstd::prelude::*;

use crate::layout::Tree;

verus! {

#[verifier::external_type_specification]
#[verifier::external_body]
pub struct ExJsonValue(serde_json::Value);

/// One level of a JSON value: scalars as plain values, the items of an
/// array and the members of an object as references to the values below.
pub enum JsonNode<'a> {
    Null,
    Bool(bool),
    Number(String),
    String(String),
    Array(Vec<&'a serde_json::Value>),
    Object(Vec<(String, &'a serde_json::Value)>),
}

/// Relies on `serde_json::Value`'s variants: tells them apart, and writes a
/// number as `serde_json::Number`'s `Display` does.
#[verifier::external_body]
fn json_node<'a>(v: &'a serde_json::Value) -> JsonNode<'a> {
    match v {
        serde_json::Value::Null => JsonNode::Null,
        serde_json::Value::Bool(b) => JsonNode::Bool(*b),
        serde_json::Value::Number(n) => JsonNode::Number(n.to_string()),
        serde_json::Value::String(s) => JsonNode::String(s.clone()),
        serde_json::Value::Array(a) => JsonNode::Array(a.iter().collect()),
        serde_json::Value::Object(m) => JsonNode::Object(m.iter().map(|(k, x)| (k.clone(), x)).collect()),
    }
}

/// `b` is JSON text that `serde_json::from_slice` reads.
pub uninterp spec fn json_parses(b: Seq<u8>) -> bool;

/// Relies on `serde_json::from_slice` to read JSON text.
#[verifier::external_body]
fn parse_json(b: &[u8]) -> (r: Option<serde_json::Value>)
    ensures
        (r is Some) == json_parses(b@),
{
    serde_json::from_slice::<serde_json::Value>(b).ok()
}

/// How deeply JSON values may nest: `serde_json` refuses deeper text.
pub const MAX_JSON_DEPTH: usize = 128;

/// The tree depth that a JSON value nested `MAX_JSON_DEPTH` deep needs.
pub const JSON_TREE_DEPTH: usize = 4 * MAX_JSON_DEPTH + 8;

/// The kinds that tag a JSON value.
pub const JSON_NULL: u32 = 0;
pub const JSON_BOOL: u32 = 1;
pub const JSON_NUMBER: u32 = 2;
pub const JSON_STRING: u32 = 3;
pub const JSON_ARRAY: u32 = 4;
pub const JSON_OBJECT: u32 = 5;

/// A tagged guest value: its kind, then its payload.
pub fn tagged_tree(kind: u32, payload: Tree) -> (r: Tree)
    ensures
        r matches Tree::Record(v) && v@ == seq![Tree::Word(kind), Tree::Word(0), payload, Tree::Word(0)],
{
    let mut v: Vec<Tree> = Vec::new();
    v.push(Tree::Word(kind));
    v.push(Tree::Word(0));
    v.push(payload);
    v.push(Tree::Word(0));
    assert(v@ =~= seq![Tree::Word(kind), Tree::Word(0), payload, Tree::Word(0)]);
    Tree::Record(v)
}

/// The guest tree of a JSON value: a tagged value whose payload is the
/// boolean, the number's text, the string, an array of values, or a map of
/// (key, value) entries. `None` where it nests deeper than `depth`.
pub fn json_tree(v: &serde_json::Value, depth: usize) -> (r: Option<Tree>)
    ensures
        r matches Some(t) ==> (t matches Tree::Record(cs) && cs@.len() == 4),
    decreases depth,
{
    if depth == 0 {
        return None;
    }
    match json_node(v) {
        JsonNode::Null => Some(tagged_tree(JSON_NULL, Tree::Word(0))),
        JsonNode::Bool(b) => Some(tagged_tree(JSON_BOOL, Tree::Word(if b {
            1
        } else {
            0
        }))),
        JsonNode::Number(n) => Some(tagged_tree(JSON_NUMBER, Tree::Str(n))),
        JsonNode::String(x) => Some(tagged_tree(JSON_STRING, Tree::Str(x))),
        JsonNode::Array(items) => {
            if items.len() > u32::MAX as usize {
                return None;
            }
            let mut cs: Vec<Tree> = Vec::new();
            cs.push(Tree::Word(items.len() as u32));
            let mut i: usize = 0;
            while i < items.len()
                invariant
                    depth > 0,
                decreases items@.len() - i,
            {
                match json_tree(items[i], depth - 1) {
                    Some(t) => cs.push(t),
                    None => {
                        return None;
                    },
                }
                i = i + 1;
            }
            Some(tagged_tree(JSON_ARRAY, Tree::Record(cs)))
        },
        JsonNode::Object(members) => {
            if members.len() > u32::MAX as usize {
                return None;
            }
            let mut cs: Vec<Tree> = Vec::new();
            cs.push(Tree::Word(members.len() as u32));
            let mut i: usize = 0;
            while i < members.len()
                invariant
                    depth > 0,
                decreases members@.len() - i,
            {
                let (key, value) = &members[i];
                match json_tree(*value, depth - 1) {
                    Some(t) => {
                        let mut entry: Vec<Tree> = Vec::new();
                        entry.push(Tree::Str(key.clone()));
                        entry.push(t);
                        cs.push(Tree::Record(entry));
                    },
                    None => {
                        return None;
                    },
                }
                i = i + 1;
            }
            Some(tagged_tree(JSON_OBJECT, Tree::Record(cs)))
        },
    }
}

/// Reads JSON text into the guest tree of its value. `None` where
/// `serde_json` refuses the text, or the value nests deeper than
/// `MAX_JSON_DEPTH`.
pub fn json_text_tree(b: &[u8]) -> (r: Option<Tree>)
    ensures
        !json_parses(b@) ==> r is None,
        r matches Some(t) ==> (t matches Tree::Record(cs) && cs@.len() == 4),
{
    match parse_json(b) {
        Some(v) => json_tree(&v, MAX_JSON_DEPTH),
        None => None,
    }
}

} // verus!
