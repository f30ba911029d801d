//! Configuration documents as plain value trees. The YAML text itself is
//! read by an outside parser; everything the proxy decides about a document
//! is decided, and verified, over this tree.

use serde::Deserialize;
use vstd::prelude::*;

verus! {

/// One parsed document: scalars, lists and mappings as plain values.
/// `Other` stands for whatever the configuration grammar has no use for
/// (floating-point numbers, out-of-range integers, tagged values).
#[derive(Debug, PartialEq, Eq)]
pub enum Node {
    Null,
    Bool(bool),
    Int(i64),
    Str(String),
    List(Vec<Node>),
    Mapping(Vec<(Node, Node)>),
    Other,
}

#[verifier::external_type_specification]
#[verifier::external_body]
pub struct ExYamlValue(serde_yaml::Value);

/// Relies on serde_yaml's `Value`: each variant moves to the plain tree,
/// one arm each; numbers that are not machine integers and tagged values
/// carry nothing the grammar reads and become `Other`.
#[verifier::external_body]
fn node_of_value(v: serde_yaml::Value) -> Node {
    match v {
        serde_yaml::Value::Null => Node::Null,
        serde_yaml::Value::Bool(b) => Node::Bool(b),
        serde_yaml::Value::Number(n) => match n.as_i64() {
            Some(i) => Node::Int(i),
            None => Node::Other,
        },
        serde_yaml::Value::String(s) => Node::Str(s),
        serde_yaml::Value::Sequence(s) => Node::List(s.into_iter().map(node_of_value).collect()),
        serde_yaml::Value::Mapping(m) => Node::Mapping(
            m.into_iter().map(|(k, val)| (node_of_value(k), node_of_value(val))).collect(),
        ),
        serde_yaml::Value::Tagged(_) => Node::Other,
    }
}

/// The tree one YAML document denotes, if the text parses at all; parsing
/// depends on the characters alone.
pub uninterp spec fn yaml_doc_of(s: Seq<char>) -> Option<Node>;

/// The trees of a `---`-separated YAML text, if it parses at all; parsing
/// depends on the characters alone.
pub uninterp spec fn yaml_docs_of(s: Seq<char>) -> Option<Seq<Node>>;

/// Relies on serde_yaml::from_str: parses one YAML document, or reports the
/// parser's message; the outcome is a function of the text.
#[verifier::external_body]
pub fn parse_yaml(src: &str) -> (r: Result<Node, String>)
    ensures
        match r {
            Ok(n) => yaml_doc_of(src@) == Some(n),
            Err(_) => yaml_doc_of(src@) is None,
        },
{
    match serde_yaml::from_str::<serde_yaml::Value>(src) {
        Ok(v) => Ok(node_of_value(v)),
        Err(e) => Err(e.to_string()),
    }
}

/// Relies on serde_yaml::Deserializer: one tree per `---`-separated YAML
/// document, or the parser's message; the outcome is a function of the text.
#[verifier::external_body]
pub fn parse_yaml_documents(src: &str) -> (r: Result<Vec<Node>, String>)
    ensures
        match r {
            Ok(docs) => yaml_docs_of(src@) == Some(docs@),
            Err(_) => yaml_docs_of(src@) is None,
        },
{
    let mut docs: Vec<Node> = Vec::new();
    for doc in serde_yaml::Deserializer::from_str(src) {
        match serde_yaml::Value::deserialize(doc) {
            Ok(v) => docs.push(node_of_value(v)),
            Err(e) => return Err(e.to_string()),
        }
    }
    Ok(docs)
}

/// The value under the (string) key, if any; the first hit decides.
pub open spec fn map_lookup(entries: Seq<(Node, Node)>, key: Seq<char>) -> Option<Node>
    decreases entries.len(),
{
    if entries.len() == 0 {
        None
    } else {
        let hit = match entries[0].0 {
            Node::Str(s) => s@ == key,
            _ => false,
        };
        if hit {
            Some(entries[0].1)
        } else {
            map_lookup(entries.drop_first(), key)
        }
    }
}

/// Whether the node is the string key `key`.
pub open spec fn key_is(n: Node, key: Seq<char>) -> bool {
    match n {
        Node::Str(s) => s@ == key,
        _ => false,
    }
}

/// Looks a string key up in a mapping's entries.
pub fn map_get<'a>(entries: &'a Vec<(Node, Node)>, key: &String) -> (r: Option<&'a Node>)
    ensures
        match r {
            Some(n) => map_lookup(entries@, key@) == Some(*n),
            None => map_lookup(entries@, key@) is None,
        },
{
    let n = entries.len();
    proof {
        assert(entries@.subrange(0, n as int) =~= entries@);
    }
    let mut i: usize = 0;
    while i < n
        invariant
            0 <= i <= n,
            n == entries@.len(),
            map_lookup(entries@, key@) == map_lookup(entries@.subrange(i as int, n as int), key@),
        decreases n - i,
    {
        let ghost rest = entries@.subrange(i as int, n as int);
        let hit = match &entries[i].0 {
            Node::Str(s) => s.eq(key),
            _ => false,
        };
        proof {
            assert(rest[0] == entries@[i as int]);
            assert(rest.drop_first() =~= entries@.subrange(i as int + 1, n as int));
        }
        if hit {
            return Some(&entries[i].1);
        }
        i = i + 1;
    }
    None
}

} // verus!
