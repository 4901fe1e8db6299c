//! The boundary to the YAML serialization library: text is parsed into the
//! plain value tree of [`crate::yaml::Yaml`], and a tree is rendered back to
//! text.  Everything behind this boundary is trusted; the schema decode,
//! validation and re-encoding all operate on the plain tree and are verified.

use vstd::prelude::*;

use crate::yaml::{yaml_view, Yaml, YamlV};

verus! {

/// What parsing a piece of text yields: the tree, or the parser's message.
/// serde_yaml::from_str depends on the text alone, so its outcome has a name.
pub uninterp spec fn parse_result(s: Seq<char>) -> Result<YamlV, Seq<char>>;

/// What rendering a tree yields: the text, or the serializer's message.
/// serde_yaml::to_string depends on the tree alone, so its outcome has a name.
pub uninterp spec fn emit_result(y: YamlV) -> Result<Seq<char>, Seq<char>>;

#[verifier::external_type_specification]
#[verifier::external_body]
pub struct ExYamlValue(serde_yaml::Value);

/// Relies on serde_yaml::Value's variants: each one is carried over to the
/// plain tree, a numeric scalar by its Display form.
#[verifier::external_body]
fn tree_of_value(v: serde_yaml::Value) -> Yaml {
    match v {
        serde_yaml::Value::Null => Yaml::Null,
        serde_yaml::Value::Bool(b) => Yaml::Bool(b),
        serde_yaml::Value::Number(n) => Yaml::Num(n.to_string()),
        serde_yaml::Value::String(s) => Yaml::Str(s),
        serde_yaml::Value::Sequence(xs) => Yaml::Arr(xs.into_iter().map(tree_of_value).collect()),
        serde_yaml::Value::Mapping(m) => Yaml::Obj(
            m.into_iter().map(|(k, w)| (tree_of_value(k), tree_of_value(w))).collect(),
        ),
    }
}

/// Relies on serde_yaml::Number's Deserialize impl: the Display form of a
/// number parses back to the same number.
#[verifier::external_body]
fn value_of_tree(y: &Yaml) -> serde_yaml::Value {
    match y {
        Yaml::Null => serde_yaml::Value::Null,
        Yaml::Bool(b) => serde_yaml::Value::Bool(*b),
        Yaml::Num(s) => serde_yaml::from_str::<serde_yaml::Number>(s).map(
            serde_yaml::Value::Number,
        ).unwrap_or_else(|_| serde_yaml::Value::String(s.clone())),
        Yaml::Str(s) => serde_yaml::Value::String(s.clone()),
        Yaml::Arr(xs) => serde_yaml::Value::Sequence(xs.iter().map(value_of_tree).collect()),
        Yaml::Obj(es) => serde_yaml::Value::Mapping(
            es.iter().map(|(k, w)| (value_of_tree(k), value_of_tree(w))).collect(),
        ),
    }
}

/// Relies on serde_yaml::from_str: parses YAML text into a value tree, or
/// reports the parser's own message; the outcome depends on the text alone.
#[verifier::external_body]
pub(crate) fn parse_yaml_text(text: &str) -> (r: Result<Yaml, String>)
    ensures
        (match r {
            Ok(y) => parse_result(text@) == Ok::<YamlV, Seq<char>>(yaml_view(y)),
            Err(m) => parse_result(text@) == Err::<YamlV, Seq<char>>(m@),
        }),
{
    match serde_yaml::from_str::<serde_yaml::Value>(text) {
        Ok(v) => Ok(tree_of_value(v)),
        Err(e) => Err(e.to_string()),
    }
}

/// Relies on serde_yaml::to_string: renders a value tree as YAML text, or
/// reports the serializer's own message; the outcome depends on the tree
/// alone.
#[verifier::external_body]
pub(crate) fn emit_yaml_text(y: &Yaml) -> (r: Result<String, String>)
    ensures
        (match r {
            Ok(s) => emit_result(yaml_view(*y)) == Ok::<Seq<char>, Seq<char>>(s@),
            Err(m) => emit_result(yaml_view(*y)) == Err::<Seq<char>, Seq<char>>(m@),
        }),
{
    serde_yaml::to_string(&value_of_tree(y)).map_err(|e| e.to_string())
}

} // verus!
