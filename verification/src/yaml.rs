//! Where this library leans on outside code: reading a YAML text, which the YAML
//! engine of `gray_matter` does, and writing one, which `serde_yaml` does.
//!
//! Nothing here is proved. Each of the two calls is taken to give the same outcome
//! for the same input, failure included, and nothing more is claimed of what it gives.

use vstd::prelude::*;
use crate::node::{Node, Tree};

verus! {

/// `gray_matter::Pod`, the value that the engines of `gray_matter` give. Nothing is
/// known of what is inside.
#[verifier::external_type_specification]
#[verifier::external_body]
pub struct ExPod(gray_matter::Pod);

/// `serde_yaml::Value`, the value that `serde_yaml` writes out. Nothing is known of
/// what is inside.
#[verifier::external_type_specification]
#[verifier::external_body]
pub struct ExYamlValue(serde_yaml::Value);

/// `serde_yaml::Error`, the error of `serde_yaml::to_string`.
#[verifier::external_type_specification]
#[verifier::external_body]
pub struct ExYamlError(serde_yaml::Error);

/// The value that the YAML engine of `gray_matter` reads out of a text, as
/// [`parse_yaml`] hands it on.
pub uninterp spec fn yaml_tree_of(text: Seq<char>) -> Tree;

/// What `serde_yaml::to_string` comes to for a value: the YAML text that it writes,
/// or nothing where it fails.
pub uninterp spec fn yaml_text_of(tree: Tree) -> Option<Seq<char>>;

/// Turns a `gray_matter::Pod` into a [`Node`], variant by variant, with no claim on
/// the outcome. The entries of a hash, which come in no order, are put in the order
/// of their keys, and a floating-point number is written in decimal notation.
#[verifier::external_body]
pub(crate) fn value_of_pod(pod: gray_matter::Pod) -> Node {
    match pod {
        gray_matter::Pod::Null => Node::Null,
        gray_matter::Pod::String(s) => Node::String(s),
        gray_matter::Pod::Integer(i) => Node::Integer(i),
        gray_matter::Pod::Float(x) => Node::Float(format!("{:?}", x)),
        gray_matter::Pod::Boolean(b) => Node::Bool(b),
        gray_matter::Pod::Array(items) => Node::Sequence(
            items.into_iter().map(value_of_pod).collect(),
        ),
        gray_matter::Pod::Hash(entries) => Node::Mapping(
            entries.into_iter().collect::<std::collections::BTreeMap<_, _>>().into_iter().map(
                |(key, item)| (key, value_of_pod(item)),
            ).collect(),
        ),
    }
}

/// Calls `parse` of `gray_matter::engine::YAML`, which reads the first document of
/// a YAML text and gives a null for a text that is no YAML. The claim is only that
/// the outcome is a function of the text; which value a text holds is not said.
#[verifier::external_body]
pub(crate) fn parse_yaml(text: &str) -> (node: Node)
    ensures
        node@ == yaml_tree_of(text@),
{
    value_of_pod(<gray_matter::engine::YAML as gray_matter::engine::Engine>::parse(text))
}

/// Turns a [`Node`] into a `serde_yaml::Value`, variant by variant, with no claim on
/// the outcome. A floating-point number is read from its decimal notation by
/// `from_str` of `serde_yaml::Number`; a text that it does not take as a number is
/// handed on as a string.
#[verifier::external_body]
pub(crate) fn yaml_of_value(value: &Node) -> serde_yaml::Value {
    match value {
        Node::Null => serde_yaml::Value::Null,
        Node::Bool(b) => (*b).into(),
        Node::Integer(i) => (*i).into(),
        Node::Float(digits) => match digits.parse() {
            Ok(number) => serde_yaml::Value::Number(number),
            Err(_) => digits.as_str().into(),
        },
        Node::String(s) => s.as_str().into(),
        Node::Sequence(items) => items.iter().map(yaml_of_value).collect(),
        Node::Mapping(entries) => serde_yaml::Value::Mapping(
            entries.iter().map(|(key, item)| (key.as_str().into(), yaml_of_value(item))).collect(),
        ),
    }
}

/// Calls `serde_yaml::to_string`, which writes to memory and so depends on the value
/// alone. The claim is only that the outcome, a text or a failure, is a function of
/// the value; on which values it fails is not said.
#[verifier::external_body]
pub(crate) fn yaml_text(value: &Node) -> (written: Result<String, serde_yaml::Error>)
    ensures
        match written {
            Ok(text) => yaml_text_of(value@) == Some(text@),
            Err(_) => yaml_text_of(value@) is None,
        },
{
    serde_yaml::to_string(&yaml_of_value(value))
}

} // verus!
