//! What this crate takes on trust from `serde_yaml`: the accessors of the
//! nodes of a document. The crate reads no text into a document; its caller
//! does, and hands the document in.
//!
//! A node is opaque to the verifier. Each accessor is described by a
//! function of the node that has no definition here; nothing is claimed of
//! these functions beyond their being functions.

use vstd::prelude::*;

verus! {

#[verifier::external_type_specification]
#[verifier::external_body]
pub struct ExValue(serde_yaml::Value);

#[verifier::external_type_specification]
#[verifier::external_body]
pub struct ExError(serde_yaml::Error);

/// The node stored under a text key, if `node` is a mapping that has the key.
pub uninterp spec fn yaml_member(node: serde_yaml::Value, key: Seq<char>) -> Option<
    serde_yaml::Value,
>;

/// The characters of a node that is a string.
pub uninterp spec fn yaml_text(node: serde_yaml::Value) -> Option<Seq<char>>;

/// The items of a node that is a sequence.
pub uninterp spec fn yaml_items(node: serde_yaml::Value) -> Option<Seq<serde_yaml::Value>>;

/// Whether a node is the null value.
pub uninterp spec fn yaml_is_null(node: serde_yaml::Value) -> bool;

/// Whether a node is a mapping.
pub uninterp spec fn yaml_is_mapping(node: serde_yaml::Value) -> bool;

/// `serde_yaml::Value::get` with a text key: the node under that key of a
/// mapping; nothing for a missing key and for a node that is no mapping.
#[verifier::external_body]
pub(crate) fn member<'a>(node: &'a serde_yaml::Value, key: &str) -> (r: Option<
    &'a serde_yaml::Value,
>)
    ensures
        match r {
            Some(found) => yaml_member(*node, key@) == Some(*found),
            None => yaml_member(*node, key@) is None,
        },
{
    node.get(key)
}

/// `serde_yaml::Value::as_str`: the text of a string node, nothing for any
/// other node.
pub assume_specification<'a>[ serde_yaml::Value::as_str ](node: &'a serde_yaml::Value) -> (r:
    Option<&'a str>)
    ensures
        match r {
            Some(text) => yaml_text(*node) == Some(text@),
            None => yaml_text(*node) is None,
        },
;

/// `serde_yaml::Value::as_sequence`: the items of a sequence node, nothing
/// for any other node.
pub assume_specification<'a>[ serde_yaml::Value::as_sequence ](
    node: &'a serde_yaml::Value,
) -> (r: Option<&'a serde_yaml::Sequence>)
    ensures
        match r {
            Some(items) => yaml_items(*node) == Some(items@),
            None => yaml_items(*node) is None,
        },
;

/// `serde_yaml::Value::is_null`: whether the node is the null value.
pub assume_specification[ serde_yaml::Value::is_null ](node: &serde_yaml::Value) -> (r: bool)
    ensures
        r == yaml_is_null(*node),
;

/// `serde_yaml::Value::is_mapping`: whether the node is a mapping.
pub assume_specification[ serde_yaml::Value::is_mapping ](node: &serde_yaml::Value) -> (r: bool)
    ensures
        r == yaml_is_mapping(*node),
;

} // verus!
