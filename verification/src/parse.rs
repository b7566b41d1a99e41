//! The boundary to the YAML parser.

use vstd::prelude::*;
use crate::node::Entry;
use crate::node::Node;
use serde_yaml_bw::Value;

verus! {

#[verifier::external_type_specification]
#[verifier::external_body]
pub struct ExValue(Value);

/// The tree that parsing `text` as one YAML document yields, or `None` when
/// the text is not valid YAML; the result depends on the text alone.
pub uninterp spec fn parsed_yaml(text: Seq<char>) -> Option<Node>;

/// Relies on serde_yaml_bw::from_str: parses `text` as a single YAML
/// document, deterministically in the text. The parsed value is rebuilt as
/// a `Node` by `node_of_value`.
#[verifier::external_body]
pub(crate) fn parse_yaml(text: &str) -> (r: Option<Node>)
    ensures
        r == parsed_yaml(text@),
{
    match serde_yaml_bw::from_str::<Value>(text) {
        Ok(v) => Some(node_of_value(v)),
        Err(_) => None,
    }
}

/// Relies on the shape of serde_yaml_bw::Value: rebuilds a parsed value as
/// a `Node`, one arm per variant. A number keeps its rendered decimal text;
/// a tag is dropped, as `Value::get` drops it when indexing; a mapping
/// entry whose key is not a string is dropped, since no string lookup can
/// reach it; an unresolved alias reads as null.
#[verifier::external_body]
fn node_of_value(v: Value) -> Node {
    match v {
        Value::Null(_) => Node::Null,
        Value::Bool(b, _) => Node::Boolean(b),
        Value::Number(n, _) => Node::Number(n.to_string()),
        Value::String(s, _) => Node::Text(s),
        Value::Sequence(items) => Node::Sequence(items.into_iter().map(node_of_value).collect()),
        Value::Mapping(m) => Node::Mapping(m.into_iter().filter_map(|kv: (Value, Value)| match kv.0 {
            Value::String(key, _) => Some(Entry { key, value: node_of_value(kv.1) }),
            _ => None,
        }).collect()),
        Value::Tagged(t) => node_of_value(t.value),
        Value::Alias(_) => Node::Null,
    }
}

} // verus!
